//! The InspIRCd server-to-server protocol engine: handshake, netburst,
//! UUID allocation, remote-event handling, ghost registry and message
//! delivery, over structured wire lines.
//!
//! The engine owns no socket: lines come in as values, generated lines
//! leave through the outbox, and backend work leaves through the per-queue
//! command outboxes.

use vstd::prelude::*;
use crate::addr::{PduAddr, AddrView, spec_normalize, spec_un_normalize};
use crate::comm::{
    WhatsappCommand, WhatsappCommandView, ModemCommand, ModemCommandView, ContactFactoryCommand,
    ContactFactoryCommandView, ContactManagerCommand, ControlBotCommand, ControlBotCommandView,
};
use crate::config::InspConfig;
use crate::insp_user::{InspUser, InspUserView};
use crate::line::{IrcLine, LineView, spec_line};
use crate::models::{Recipient, RecipientView, Message, MessageView, view_opt_string};
use crate::store::{Store, StoreView};
use crate::util;

verus! {

/// The link's handshake progress; strictly forward-only in one connection.
#[derive(Clone, Copy, PartialEq, Eq, Structural, Debug)]
pub enum LinkState {
    TcpConnected,
    ServerSent,
    BurstSent,
    Linked,
}

/// How far along a state is; transitions never lower it.
pub open spec fn spec_state_rank(s: LinkState) -> int {
    match s {
        LinkState::TcpConnected => 0,
        LinkState::ServerSent => 1,
        LinkState::BurstSent => 2,
        LinkState::Linked => 3,
    }
}

/// A live ghost: its wire UUID, current channel memberships, and whether
/// it talks WhatsApp rather than SMS.
pub struct InspContact {
    pub uuid: String,
    pub channels: Vec<String>,
    pub wa_mode: bool,
}

#[verifier::ext_equal]
pub struct InspContactView {
    pub uuid: Seq<char>,
    pub channels: Seq<Seq<char>>,
    pub wa_mode: bool,
}

impl View for InspContact {
    type V = InspContactView;

    open spec fn view(&self) -> InspContactView {
        InspContactView {
            uuid: self.uuid@,
            channels: self.channels@.map_values(|c: String| c@),
            wa_mode: self.wa_mode,
        }
    }
}

pub open spec fn uviews(v: Seq<(String, InspUser)>) -> Seq<(Seq<char>, InspUserView)> {
    v.map_values(|p: (String, InspUser)| (p.0@, p.1@))
}

pub open spec fn cviews(v: Seq<(PduAddr, InspContact)>) -> Seq<(AddrView, InspContactView)> {
    v.map_values(|p: (PduAddr, InspContact)| (p.0@, p.1@))
}

pub open spec fn tviews(v: Seq<(String, String)>) -> Seq<(Seq<char>, Seq<char>)> {
    v.map_values(|p: (String, String)| (p.0@, p.1@))
}

/// The zero-padded five-digit counter part of a ghost UUID.
pub open spec fn spec_pad5(n: u32) -> Seq<char> {
    let d = util::spec_dec_u64(n as u64);
    if d.len() >= 5 {
        d
    } else {
        Seq::<char>::new((5 - d.len()) as nat, |i: int| '0') + d
    }
}

/// The UUID the allocator hands out for counter value `n`.
pub open spec fn spec_uuid_str(sid: Seq<char>, n: u32) -> Seq<char> {
    sid + seq!['Z'] + spec_pad5(n)
}

fn pad5(n: u32) -> (r: String)
    ensures
        r@ == spec_pad5(n),
{
    let d = util::dec_u64(n as u64);
    let dlen = d.unicode_len();
    if dlen >= 5 {
        d
    } else {
        let mut out = String::new();
        let mut i: usize = 0;
        let pad = 5 - dlen;
        while i < pad
            invariant
                pad == 5 - dlen,
                dlen == d@.len(),
                i <= pad,
                out@ == Seq::<char>::new(i as nat, |k: int| '0'),
            decreases pad - i,
        {
            out.push('0');
            i = i + 1;
            proof {
                assert(out@ =~= Seq::<char>::new(i as nat, |k: int| '0'));
            }
        }
        proof {
            assert(out@ =~= Seq::<char>::new((5 - d@.len()) as nat, |k: int| '0'));
        }
        out.concat(d.as_str())
    }
}

/// The live ghost stored under an address, scanning in order.
pub open spec fn lookup_contact(cs: Seq<(AddrView, InspContactView)>, a: AddrView) -> Option<
    InspContactView,
>
    decreases cs.len(),
{
    if cs.len() == 0 {
        None
    } else if cs[0].0 == a {
        Some(cs[0].1)
    } else {
        lookup_contact(cs.drop_first(), a)
    }
}

/// A found ghost sits at a first matching index; a miss means no index
/// matches.
pub proof fn lemma_lookup_contact(cs: Seq<(AddrView, InspContactView)>, a: AddrView)
    ensures
        match lookup_contact(cs, a) {
            Some(ct) => exists|i: int|
                0 <= i < cs.len() && (#[trigger] cs[i]).0 == a && cs[i].1 == ct && forall|j: int|
                    0 <= j < i ==> (#[trigger] cs[j]).0 != a,
            None => forall|j: int| 0 <= j < cs.len() ==> (#[trigger] cs[j]).0 != a,
        },
    decreases cs.len(),
{
    if cs.len() > 0 && cs[0].0 != a {
        lemma_lookup_contact(cs.drop_first(), a);
        match lookup_contact(cs.drop_first(), a) {
            Some(ct) => {
                let i = choose|i: int|
                    0 <= i < cs.drop_first().len() && (#[trigger] cs.drop_first()[i]).0 == a
                        && cs.drop_first()[i].1 == ct && forall|j: int|
                        0 <= j < i ==> (#[trigger] cs.drop_first()[j]).0 != a;
                assert(cs[i + 1] == cs.drop_first()[i]);
                assert forall|j: int| 0 <= j < i + 1 implies (#[trigger] cs[j]).0 != a by {
                    if j > 0 {
                        assert(cs.drop_first()[j - 1] == cs[j]);
                    }
                }
            },
            None => {
                assert forall|j: int| 0 <= j < cs.len() implies (#[trigger] cs[j]).0 != a by {
                    if j > 0 {
                        assert(cs.drop_first()[j - 1] == cs[j]);
                    }
                }
            },
        }
    }
}

/// Two contact runs agreeing on addresses and UUIDs agree on lookups.
pub proof fn lemma_lookup_same_addrs(
    a: Seq<(AddrView, InspContactView)>,
    b: Seq<(AddrView, InspContactView)>,
    av: AddrView,
)
    requires
        a.len() == b.len(),
        forall|i: int|
            0 <= i < a.len() ==> ((#[trigger] a[i]).0 == b[i].0 && a[i].1.uuid == b[i].1.uuid),
    ensures
        lookup_contact(a, av) is Some <==> lookup_contact(b, av) is Some,
        (lookup_contact(a, av) matches Some(x) ==> lookup_contact(b, av) matches Some(y)
            && x.uuid == y.uuid),
    decreases a.len(),
{
    if a.len() > 0 {
        assert(a[0].0 == b[0].0);
        if a[0].0 != av {
            assert forall|i: int|
                0 <= i < a.drop_first().len() implies ((#[trigger] a.drop_first()[i]).0
                == b.drop_first()[i].0 && a.drop_first()[i].1.uuid
                == b.drop_first()[i].1.uuid) by {
                assert(a.drop_first()[i] == a[i + 1]);
                assert(b.drop_first()[i] == b[i + 1]);
            }
            lemma_lookup_same_addrs(a.drop_first(), b.drop_first(), av);
        }
    }
}

/// The operator line reconciliation emits for one participant.
pub open spec fn spec_mode_line(
    sid: Seq<char>,
    chan: Seq<char>,
    op: bool,
    uuid: Seq<char>,
) -> LineView {
    spec_line(
        Some(sid),
        "MODE"@,
        seq![
            chan,
            if op {
                "+o"@
            } else {
                "-o"@
            },
            uuid,
        ],
        None,
    )
}

/// The first wire user carrying a nick, scanning in order.
pub open spec fn lookup_admin(us: Seq<(Seq<char>, InspUserView)>, nick: Seq<char>) -> Option<
    Seq<char>,
>
    decreases us.len(),
{
    if us.len() == 0 {
        None
    } else if us[0].1.nick == nick {
        Some(us[0].0)
    } else {
        lookup_admin(us.drop_first(), nick)
    }
}

/// The address of the ghost owning a wire UUID, scanning in order.
pub open spec fn lookup_contact_by_uuid(cs: Seq<(AddrView, InspContactView)>, uuid: Seq<char>) -> Option<
    AddrView,
>
    decreases cs.len(),
{
    if cs.len() == 0 {
        None
    } else if cs[0].1.uuid == uuid {
        Some(cs[0].0)
    } else {
        lookup_contact_by_uuid(cs.drop_first(), uuid)
    }
}

/// The address of the first ghost whose wire user carries a nick.
pub open spec fn resolve_nick_rec(
    us: Seq<(Seq<char>, InspUserView)>,
    cs: Seq<(AddrView, InspContactView)>,
    nick: Seq<char>,
) -> Option<AddrView>
    decreases us.len(),
{
    if us.len() == 0 {
        None
    } else if us[0].1.nick == nick && lookup_contact_by_uuid(cs, us[0].0) is Some {
        lookup_contact_by_uuid(cs, us[0].0)
    } else {
        resolve_nick_rec(us.drop_first(), cs, nick)
    }
}

/// The whole protocol engine state.
pub struct InspLink {
    pub cfg: InspConfig,
    pub control_uuid: String,
    pub next_user_id: u32,
    pub remote_sid: String,
    pub users: Vec<(String, InspUser)>,
    pub contacts: Vec<(PduAddr, InspContact)>,
    pub channel_topics: Vec<(String, String)>,
    pub store: Store,
    pub outbox: Vec<IrcLine>,
    pub wa_outbox: Vec<WhatsappCommand>,
    pub m_outbox: Vec<ModemCommand>,
    pub cf_outbox: Vec<ContactFactoryCommand>,
    pub cb_outbox: Vec<ControlBotCommand>,
    pub channels: Vec<String>,
    pub state: LinkState,
}

#[verifier::ext_equal]
pub struct LinkView {
    pub control_uuid: Seq<char>,
    pub next_user_id: u32,
    pub remote_sid: Seq<char>,
    pub users: Seq<(Seq<char>, InspUserView)>,
    pub contacts: Seq<(AddrView, InspContactView)>,
    pub channel_topics: Seq<(Seq<char>, Seq<char>)>,
    pub store: StoreView,
    pub outbox: Seq<LineView>,
    pub wa_outbox: Seq<WhatsappCommandView>,
    pub m_outbox: Seq<ModemCommandView>,
    pub cf_outbox: Seq<ContactFactoryCommandView>,
    pub cb_outbox: Seq<ControlBotCommandView>,
    pub channels: Seq<Seq<char>>,
    pub state: LinkState,
}

impl View for InspLink {
    type V = LinkView;

    open spec fn view(&self) -> LinkView {
        LinkView {
            control_uuid: self.control_uuid@,
            next_user_id: self.next_user_id,
            remote_sid: self.remote_sid@,
            users: uviews(self.users@),
            contacts: cviews(self.contacts@),
            channel_topics: tviews(self.channel_topics@),
            store: self.store@,
            outbox: self.outbox@.map_values(|l: IrcLine| l@),
            wa_outbox: self.wa_outbox@.map_values(|c: WhatsappCommand| c@),
            m_outbox: self.m_outbox@.map_values(|c: ModemCommand| c@),
            cf_outbox: self.cf_outbox@.map_values(|c: ContactFactoryCommand| c@),
            cb_outbox: self.cb_outbox@.map_values(|c: ControlBotCommand| c@),
            channels: self.channels@.map_values(|c: String| c@),
            state: self.state,
        }
    }
}

impl InspLink {
    /// At most one live ghost per address, and a well-formed store.
    pub open spec fn wf(&self) -> bool {
        &&& self.store.wf()
        &&& forall|i: int, j: int|
            0 <= i < j < self@.contacts.len() ==> (#[trigger] self@.contacts[i]).0 != (
            #[trigger] self@.contacts[j]).0
    }

    /// A fresh engine for one connection, not yet handshaken.
    pub fn new(cfg: InspConfig, store: Store) -> (r: InspLink)
        requires
            store.wf(),
        ensures
            r.wf(),
            r@.state == LinkState::TcpConnected,
            r@.next_user_id == 1,
            r@.control_uuid == cfg.sid@ + "A00000"@,
            r@.store == store@,
            r@.users.len() == 0,
            r@.contacts.len() == 0,
            r@.outbox.len() == 0,
            r@.wa_outbox.len() == 0,
            r@.m_outbox.len() == 0,
            r@.cf_outbox.len() == 0,
            r@.cb_outbox.len() == 0,
            r.cfg == cfg,
    {
        let mut control_uuid = cfg.sid.clone();
        control_uuid.append("A00000");
        let r = InspLink {
            cfg,
            control_uuid,
            next_user_id: 1,
            remote_sid: String::from_str("XXX"),
            users: Vec::new(),
            contacts: Vec::new(),
            channel_topics: Vec::new(),
            store,
            outbox: Vec::new(),
            wa_outbox: Vec::new(),
            m_outbox: Vec::new(),
            cf_outbox: Vec::new(),
            cb_outbox: Vec::new(),
            channels: Vec::new(),
            state: LinkState::TcpConnected,
        };
        proof {
            assert(r@.users =~= Seq::<(Seq<char>, InspUserView)>::empty());
            assert(r@.contacts =~= Seq::<(AddrView, InspContactView)>::empty());
            assert(r@.outbox =~= Seq::<LineView>::empty());
            assert(r@.wa_outbox =~= Seq::<WhatsappCommandView>::empty());
            assert(r@.m_outbox =~= Seq::<ModemCommandView>::empty());
            assert(r@.cf_outbox =~= Seq::<ContactFactoryCommandView>::empty());
            assert(r@.cb_outbox =~= Seq::<ControlBotCommandView>::empty());
        }
        r
    }

    /// The hostname shown for a ghost: a WhatsApp or an SMS subdomain of
    /// the bridge's server name.
    pub fn host_for_wa(&self, wa: bool) -> (r: String)
        ensures
            wa ==> r@ == "wa."@ + self.cfg.server_name@,
            !wa ==> r@ == "s."@ + self.cfg.server_name@,
    {
        let mut out = String::new();
        if wa {
            out.push('w');
            out.push('a');
            out.push('.');
            proof {
                assert(out@ =~= "wa."@) by {
                    reveal_strlit("wa.");
                }
            }
        } else {
            out.push('s');
            out.push('.');
            proof {
                assert(out@ =~= "s."@) by {
                    reveal_strlit("s.");
                }
            }
        }
        out.append(self.cfg.server_name.as_str());
        out
    }

    /// Appends one line to the outbox.
    pub fn send(&mut self, m: IrcLine)
        ensures
            *final(self) == (InspLink { outbox: final(self).outbox, ..*old(self) }),
            final(self)@.outbox == old(self)@.outbox.push(m@),
    {
        self.outbox.push(m);
        proof {
            assert(final(self)@.outbox =~= old(self)@.outbox.push(
                final(self).outbox@.last()@,
            ));
        }
    }

    /// Allocates the next ghost UUID: `<SID>Z<5-digit counter>`.  The
    /// allocation fails exactly when the counter has left its five-digit
    /// space; the link is then torn down.
    pub fn get_uuid(&mut self) -> (r: Result<String, String>)
        ensures
            *final(self) == (InspLink { next_user_id: final(self).next_user_id, ..*old(self) }),
            old(self)@.next_user_id > 99999 ==> r is Err && final(self)@.next_user_id == old(self)@.next_user_id,
            old(self)@.next_user_id <= 99999 ==> (r matches Ok(u) && u@ == spec_uuid_str(
                old(self).cfg.sid@,
                old(self)@.next_user_id,
            ) && final(self)@.next_user_id == old(self)@.next_user_id + 1),
    {
        if self.next_user_id > 99999 {
            return Err(String::from_str("UUIDs exhausted"));
        }
        let mut ret = self.cfg.sid.clone();
        ret.push('Z');
        ret.append(pad5(self.next_user_id).as_str());
        self.next_user_id = self.next_user_id + 1;
        proof {
            assert(ret@ =~= spec_uuid_str(self.cfg.sid@, old(self)@.next_user_id));
        }
        Ok(ret)
    }

    /// The UUID the admin is connected under, if the admin is connected:
    /// the first wire user whose nick is the configured admin nick.
    pub open spec fn spec_admin_uuid(&self) -> Option<Seq<char>> {
        lookup_admin(self@.users, self.cfg.admin_nick@)
    }

    /// Finds the admin's UUID among the wire users.
    pub fn admin_uuid(&self) -> (r: Option<String>)
        ensures
            match r {
                Some(u) => self.spec_admin_uuid() == Some(u@),
                None => self.spec_admin_uuid() is None,
            },
    {
        let cnt = self.users.len();
        let mut i: usize = 0;
        proof {
            assert(self@.users.skip(0) =~= self@.users);
        }
        while i < cnt
            invariant
                cnt == self.users@.len(),
                i <= cnt,
                lookup_admin(self@.users, self.cfg.admin_nick@) == lookup_admin(
                    self@.users.skip(i as int),
                    self.cfg.admin_nick@,
                ),
            decreases cnt - i,
        {
            proof {
                assert(self@.users.skip(i as int)[0] == self@.users[i as int]);
                assert(self@.users.skip(i as int).drop_first() =~= self@.users.skip(i + 1));
            }
            if util::string_eq(&self.users[i].1.nick, self.cfg.admin_nick.as_str()) {
                return Some(self.users[i].0.clone());
            }
            i = i + 1;
        }
        proof {
            assert(self@.users.skip(cnt as int) =~= Seq::<(Seq<char>, InspUserView)>::empty());
        }
        None
    }

    /// The ghost record for an address, if one is live.
    pub open spec fn spec_contact_for(&self, a: AddrView) -> Option<InspContactView> {
        lookup_contact(self@.contacts, a)
    }

    /// Whether a ghost is live for this address.
    pub fn has_contact(&self, addr: &PduAddr) -> (r: bool)
        ensures
            r == (self.spec_contact_for(addr@) is Some),
    {
        self.find_contact_index(addr).is_some()
    }

    /// The index of the live ghost for an address.
    fn find_contact_index(&self, addr: &PduAddr) -> (r: Option<usize>)
        ensures
            match r {
                Some(i) => i < self@.contacts.len() && self@.contacts[i as int].0 == addr@
                    && self.spec_contact_for(addr@) == Some(self@.contacts[i as int].1) && forall|
                    j: int,
                | 0 <= j < i ==> (#[trigger] self@.contacts[j]).0 != addr@,
                None => self.spec_contact_for(addr@) is None && forall|j: int|
                    0 <= j < self@.contacts.len() ==> (#[trigger] self@.contacts[j]).0 != addr@,
            },
    {
        let cnt = self.contacts.len();
        let mut i: usize = 0;
        proof {
            assert(self@.contacts.skip(0) =~= self@.contacts);
        }
        while i < cnt
            invariant
                cnt == self.contacts@.len(),
                i <= cnt,
                lookup_contact(self@.contacts, addr@) == lookup_contact(
                    self@.contacts.skip(i as int),
                    addr@,
                ),
                forall|j: int| 0 <= j < i ==> (#[trigger] self@.contacts[j]).0 != addr@,
            decreases cnt - i,
        {
            proof {
                assert(self@.contacts.skip(i as int)[0] == self@.contacts[i as int]);
                assert(self@.contacts.skip(i as int).drop_first() =~= self@.contacts.skip(i + 1));
            }
            if self.contacts[i].0.addr_eq(addr) {
                return Some(i);
            }
            i = i + 1;
        }
        proof {
            assert(self@.contacts.skip(cnt as int) =~= Seq::<(AddrView, InspContactView)>::empty());
        }
        None
    }

    /// What reverse-resolving a nick yields: the address of the first
    /// ghost whose wire user carries that nick.
    pub open spec fn spec_resolve_nick(&self, nick: Seq<char>) -> Option<AddrView> {
        resolve_nick_rec(self@.users, self@.contacts, nick)
    }

    /// Reverse-resolves a nickname to a ghost's address.
    pub fn resolve_nick(&self, nick: &str) -> (r: Option<PduAddr>)
        ensures
            match r {
                Some(a) => self.spec_resolve_nick(nick@) == Some(a@),
                None => self.spec_resolve_nick(nick@) is None,
            },
    {
        let cnt = self.users.len();
        let mut i: usize = 0;
        proof {
            assert(self@.users.skip(0) =~= self@.users);
        }
        while i < cnt
            invariant
                cnt == self.users@.len(),
                i <= cnt,
                resolve_nick_rec(self@.users, self@.contacts, nick@) == resolve_nick_rec(
                    self@.users.skip(i as int),
                    self@.contacts,
                    nick@,
                ),
            decreases cnt - i,
        {
            proof {
                assert(self@.users.skip(i as int)[0] == self@.users[i as int]);
                assert(self@.users.skip(i as int).drop_first() =~= self@.users.skip(i + 1));
            }
            if util::string_eq(&self.users[i].1.nick, nick) {
                match self.find_contact_by_uuid(&self.users[i].0) {
                    Some(ci) => {
                        let a = clone_addr(&self.contacts[ci].0);
                        return Some(a);
                    },
                    None => {},
                }
            }
            i = i + 1;
        }
        proof {
            assert(self@.users.skip(cnt as int) =~= Seq::<(Seq<char>, InspUserView)>::empty());
        }
        None
    }

    /// The index of the ghost owning a wire UUID.
    fn find_contact_by_uuid(&self, uuid: &String) -> (r: Option<usize>)
        ensures
            match r {
                Some(i) => i < self@.contacts.len() && self@.contacts[i as int].1.uuid == uuid@
                    && lookup_contact_by_uuid(self@.contacts, uuid@) == Some(
                    self@.contacts[i as int].0,
                ),
                None => lookup_contact_by_uuid(self@.contacts, uuid@) is None && (forall|c: int|
                    0 <= c < self@.contacts.len() ==> (#[trigger] self@.contacts[c]).1.uuid
                        != uuid@),
            },
    {
        let cnt = self.contacts.len();
        let mut i: usize = 0;
        proof {
            assert(self@.contacts.skip(0) =~= self@.contacts);
        }
        while i < cnt
            invariant
                cnt == self.contacts@.len(),
                i <= cnt,
                lookup_contact_by_uuid(self@.contacts, uuid@) == lookup_contact_by_uuid(
                    self@.contacts.skip(i as int),
                    uuid@,
                ),
                forall|j: int| 0 <= j < i ==> (#[trigger] self@.contacts[j]).1.uuid != uuid@,
            decreases cnt - i,
        {
            proof {
                assert(self@.contacts.skip(i as int)[0] == self@.contacts[i as int]);
                assert(self@.contacts.skip(i as int).drop_first() =~= self@.contacts.skip(i + 1));
            }
            if util::string_eq(&self.contacts[i].1.uuid, uuid.as_str()) {
                return Some(i);
            }
            i = i + 1;
        }
        proof {
            assert(self@.contacts.skip(cnt as int) =~= Seq::<(AddrView, InspContactView)>::empty());
        }
        None
    }
}

/// The bus command a modem subcommand becomes.
pub open spec fn spec_modem_dispatch(mc: crate::admin::AdminModemCommandView) -> ModemCommandView {
    match mc {
        crate::admin::AdminModemCommandView::GetCsq => ModemCommandView::RequestCsq,
        crate::admin::AdminModemCommandView::GetReg => ModemCommandView::RequestReg,
        crate::admin::AdminModemCommandView::Reinit => ModemCommandView::ForceReinit,
        crate::admin::AdminModemCommandView::TempPath(p) => ModemCommandView::UpdatePath(p),
    }
}

/// The bus command a WhatsApp subcommand becomes.
pub open spec fn spec_wa_dispatch(wac: crate::admin::AdminWhatsappCommand) -> WhatsappCommandView {
    match wac {
        crate::admin::AdminWhatsappCommand::Setup => WhatsappCommandView::StartRegistration,
        crate::admin::AdminWhatsappCommand::Logon => WhatsappCommandView::LogonIfSaved,
        crate::admin::AdminWhatsappCommand::ChatList => WhatsappCommandView::GroupList,
        crate::admin::AdminWhatsappCommand::UpdateAll => WhatsappCommandView::GroupUpdateAll,
    }
}

/// The bus command a group subcommand becomes.
pub open spec fn spec_group_dispatch(gc: crate::admin::GroupCommandView) -> WhatsappCommandView {
    match gc {
        crate::admin::GroupCommandView::BridgeWhatsapp { jid, chan } => WhatsappCommandView::GroupAssociate(
            jid,
            chan,
        ),
        crate::admin::GroupCommandView::Unbridge(c) => WhatsappCommandView::GroupRemove(c),
    }
}

/// The factory command a ghost subcommand becomes.
pub open spec fn spec_ghost_dispatch(
    nick: Seq<char>,
    gc: crate::admin::GhostCommandView,
) -> ContactFactoryCommandView {
    match gc {
        crate::admin::GhostCommandView::ChangeNick(n) => ContactFactoryCommandView::ForwardCommandByNick(
            nick,
            crate::comm::ContactManagerCommandView::ChangeNick(n, crate::models::NICKSRC_USER),
        ),
        crate::admin::GhostCommandView::SetWhatsapp(b) => ContactFactoryCommandView::ForwardCommandByNick(
            nick,
            crate::comm::ContactManagerCommandView::SetWhatsapp(b),
        ),
        crate::admin::GhostCommandView::Remove => ContactFactoryCommandView::DropContactByNick(
            nick,
        ),
    }
}

/// The factory command a contact subcommand becomes.
pub open spec fn spec_contact_dispatch(
    cc: crate::admin::ContactCommandView,
) -> ContactFactoryCommandView {
    match cc {
        crate::admin::ContactCommandView::NewSms(a) => ContactFactoryCommandView::QueryContact(
            a,
            crate::models::SOURCE_SMS,
        ),
        crate::admin::ContactCommandView::NewWhatsapp(a) => ContactFactoryCommandView::QueryContact(
            a,
            crate::models::SOURCE_WA,
        ),
    }
}

/// The capability tokens advertised during the handshake, in order.
pub open spec fn spec_capab_token(k: nat) -> Seq<char> {
    if k == 0 {
        "PROTOCOL=1202"@
    } else if k == 1 {
        "NICKMAX=100"@
    } else if k == 2 {
        "CHANMAX=100"@
    } else if k == 3 {
        "MAXMODES=100"@
    } else if k == 4 {
        "IDENTMAX=100"@
    } else if k == 5 {
        "MAXQUIT=100"@
    } else if k == 6 {
        "MAXTOPIC=100"@
    } else if k == 7 {
        "MAXKICK=100"@
    } else if k == 8 {
        "MAXGECOS=100"@
    } else {
        "MAXAWAY=100"@
    }
}

/// A link state in which the netburst comes out in its clean, exact form:
/// no ghost lives yet, every stored phone number decodes, no two decode to
/// the same address, and the UUID space has room for every recipient.
pub open spec fn spec_burst_clean(l: InspLink) -> bool {
    &&& l@.contacts.len() == 0
    &&& (forall|i: int|
        0 <= i < l@.store.recipients.len() ==> spec_un_normalize(
            (#[trigger] l@.store.recipients[i]).phone_number,
        ) is Some)
    &&& (forall|i: int, j: int|
        0 <= i < j < l@.store.recipients.len() ==> spec_un_normalize(
            (#[trigger] l@.store.recipients[i]).phone_number,
        ).unwrap() != spec_un_normalize(
            (#[trigger] l@.store.recipients[j]).phone_number,
        ).unwrap())
    &&& l@.next_user_id + l@.store.recipients.len() <= 100000
}

/// The wire-user record a recipient's ghost signs on with.
pub open spec fn spec_ghost_user(server_name: Seq<char>, r: RecipientView, now: i64) -> InspUserView {
    let host = if r.whatsapp {
        "wa."@ + server_name
    } else {
        "s."@ + server_name
    };
    let av = spec_un_normalize(r.phone_number).unwrap();
    InspUserView {
        ts: now,
        nick: r.nick,
        hostname: host,
        displayed_hostname: host,
        ident: crate::nick::spec_nick_of(crate::addr::spec_addr_string(av)),
        ip: "0.0.0.0"@,
        signon_time: now,
        modes: "+i"@,
        gecos: crate::addr::spec_addr_string(av),
    }
}

/// The `UID` line announcing a wire user.
pub open spec fn spec_uid_line(sid: Seq<char>, uuid: Seq<char>, u: InspUserView) -> LineView {
    spec_line(
        Some(sid),
        "UID"@,
        seq![
            uuid,
            util::spec_dec_i64(u.ts),
            u.nick,
            u.hostname,
            u.displayed_hostname,
            u.ident,
            u.ip,
            util::spec_dec_i64(u.signon_time),
            u.modes,
        ],
        Some(u.gecos),
    )
}

/// Builds a line with no arguments.
pub fn line0(prefix: Option<String>, cmd: &str, suffix: Option<String>) -> (r: IrcLine)
    ensures
        r@ == spec_line(
            view_opt_string(prefix),
            cmd@,
            Seq::<Seq<char>>::empty(),
            view_opt_string(suffix),
        ),
{
    let r = IrcLine::new(prefix, cmd, Vec::new(), suffix);
    proof {
        assert(r@.args =~= Seq::<Seq<char>>::empty());
        assert(r@ =~= spec_line(r@.prefix, r@.command, Seq::<Seq<char>>::empty(), r@.suffix));
    }
    r
}

/// Builds a line with one argument.
pub fn line1(prefix: Option<String>, cmd: &str, a0: String, suffix: Option<String>) -> (r: IrcLine)
    ensures
        r@ == spec_line(view_opt_string(prefix), cmd@, seq![a0@], view_opt_string(suffix)),
{
    let ghost a0v = a0@;
    let mut args: Vec<String> = Vec::new();
    args.push(a0);
    let r = IrcLine::new(prefix, cmd, args, suffix);
    proof {
        assert(r@.args =~= seq![a0v]);
        assert(r@ =~= spec_line(r@.prefix, r@.command, seq![a0v], r@.suffix));
    }
    r
}

/// Builds a line with two arguments.
pub fn line2(prefix: Option<String>, cmd: &str, a0: String, a1: String, suffix: Option<String>) -> (r: IrcLine)
    ensures
        r@ == spec_line(view_opt_string(prefix), cmd@, seq![a0@, a1@], view_opt_string(suffix)),
{
    let ghost a0v = a0@;
    let ghost a1v = a1@;
    let mut args: Vec<String> = Vec::new();
    args.push(a0);
    args.push(a1);
    let r = IrcLine::new(prefix, cmd, args, suffix);
    proof {
        assert(r@.args =~= seq![a0v, a1v]);
        assert(r@ =~= spec_line(r@.prefix, r@.command, seq![a0v, a1v], r@.suffix));
    }
    r
}

/// Builds a line with three arguments.
pub fn line3(prefix: Option<String>, cmd: &str, a0: String, a1: String, a2: String, suffix: Option<String>) -> (r: IrcLine)
    ensures
        r@ == spec_line(
            view_opt_string(prefix),
            cmd@,
            seq![a0@, a1@, a2@],
            view_opt_string(suffix),
        ),
{
    let ghost a0v = a0@;
    let ghost a1v = a1@;
    let ghost a2v = a2@;
    let mut args: Vec<String> = Vec::new();
    args.push(a0);
    args.push(a1);
    args.push(a2);
    let r = IrcLine::new(prefix, cmd, args, suffix);
    proof {
        assert(r@.args =~= seq![a0v, a1v, a2v]);
        assert(r@ =~= spec_line(r@.prefix, r@.command, seq![a0v, a1v, a2v], r@.suffix));
    }
    r
}

/// Builds a line with four arguments.
pub fn line4(prefix: Option<String>, cmd: &str, a0: String, a1: String, a2: String, a3: String, suffix: Option<String>) -> (r: IrcLine)
    ensures
        r@ == spec_line(
            view_opt_string(prefix),
            cmd@,
            seq![a0@, a1@, a2@, a3@],
            view_opt_string(suffix),
        ),
{
    let ghost a0v = a0@;
    let ghost a1v = a1@;
    let ghost a2v = a2@;
    let ghost a3v = a3@;
    let mut args: Vec<String> = Vec::new();
    args.push(a0);
    args.push(a1);
    args.push(a2);
    args.push(a3);
    let r = IrcLine::new(prefix, cmd, args, suffix);
    proof {
        assert(r@.args =~= seq![a0v, a1v, a2v, a3v]);
        assert(r@ =~= spec_line(r@.prefix, r@.command, seq![a0v, a1v, a2v, a3v], r@.suffix));
    }
    r
}

impl InspLink {
    /// Law: the registry holds at most one live ghost per address.
    pub proof fn lemma_at_most_one_ghost(&self, a: AddrView, i: int, j: int)
        requires
            self.wf(),
            0 <= i < self@.contacts.len(),
            0 <= j < self@.contacts.len(),
            self@.contacts[i].0 == a,
            self@.contacts[j].0 == a,
        ensures
            i == j,
    {
    }

    /// The index of the wire user with this UUID.
    fn find_user_index(&self, uuid: &str) -> (r: Option<usize>)
        ensures
            match r {
                Some(i) => i < self@.users.len() && self@.users[i as int].0 == uuid@ && forall|
                    j: int,
                | 0 <= j < i ==> (#[trigger] self@.users[j]).0 != uuid@,
                None => forall|j: int|
                    0 <= j < self@.users.len() ==> (#[trigger] self@.users[j]).0 != uuid@,
            },
    {
        let cnt = self.users.len();
        let mut i: usize = 0;
        while i < cnt
            invariant
                cnt == self.users@.len(),
                i <= cnt,
                forall|j: int| 0 <= j < i ==> (#[trigger] self@.users[j]).0 != uuid@,
            decreases cnt - i,
        {
            if util::string_eq(&self.users[i].0, uuid) {
                proof {
                    assert(self@.users[i as int].0 == uuid@);
                }
                return Some(i);
            }
            proof {
                assert(self@.users[i as int].0 != uuid@);
            }
            i = i + 1;
        }
        None
    }

    /// Builds the `UID` line for a user record.
    fn make_uid_line(&self, uuid: &String, user: &InspUser) -> (r: IrcLine)
        ensures
            r@ == spec_uid_line(self.cfg.sid@, uuid@, user@),
    {
        let mut args: Vec<String> = Vec::new();
        args.push(uuid.clone());
        args.push(util::dec_i64(user.ts));
        args.push(user.nick.clone());
        args.push(user.hostname.clone());
        args.push(user.displayed_hostname.clone());
        args.push(user.ident.clone());
        args.push(user.ip.clone());
        args.push(util::dec_i64(user.signon_time));
        args.push(user.modes.clone());
        let r = IrcLine {
            prefix: Some(self.cfg.sid.clone()),
            command: String::from_str("UID"),
            args,
            suffix: Some(user.gecos.clone()),
        };
        proof {
            assert(r@.args =~= spec_uid_line(self.cfg.sid@, uuid@, user@).args);
            assert(r@ =~= spec_uid_line(self.cfg.sid@, uuid@, user@));
        }
        r
    }

    /// Registers a new wire user under a fresh UUID and announces it; fails
    /// exactly when the UUID space is exhausted.
    pub fn new_user(&mut self, user: InspUser) -> (r: Result<String, String>)
        requires
            old(self).wf(),
        ensures
            final(self).wf(),
            old(self)@.next_user_id > 99999 ==> r is Err && *final(self) == *old(self),
            old(self)@.next_user_id <= 99999 ==> (r matches Ok(u) && u@ == spec_uuid_str(
                old(self).cfg.sid@,
                old(self)@.next_user_id,
            ) && *final(self) == (InspLink {
                next_user_id: final(self).next_user_id,
                users: final(self).users,
                outbox: final(self).outbox,
                ..*old(self)
            }) && final(self)@.next_user_id == old(self)@.next_user_id + 1 && final(self)@.users
                == old(self)@.users.push((u@, user@)) && final(self)@.outbox == old(self)@.outbox.push(spec_uid_line(old(self).cfg.sid@, u@, user@))),
            final(self)@.users.len() >= old(self)@.users.len(),
            forall|k: int|
                0 <= k < old(self)@.users.len() ==> (#[trigger] final(self)@.users[k]).0
                    == old(self)@.users[k].0,
    {
        let uuid = match self.get_uuid() {
            Ok(u) => u,
            Err(e) => {
                return Err(e);
            },
        };
        let line = self.make_uid_line(&uuid, &user);
        let ghost uv = uuid@;
        let ghost userv = user@;
        self.users.push((uuid.clone(), user));
        self.send(line);
        proof {
            assert(final(self)@.users =~= old(self)@.users.push((uv, userv)));
            assert forall|i: int, j: int|
                0 <= i < j < final(self)@.contacts.len() implies (
            #[trigger] final(self)@.contacts[i]).0 != (#[trigger] final(self)@.contacts[j]).0 by {
                assert(final(self)@.contacts[i] == old(self)@.contacts[i]);
                assert(final(self)@.contacts[j] == old(self)@.contacts[j]);
            }
        }
        Ok(uuid)
    }

    /// Creates the live ghost for a recipient: a fresh wire user on the
    /// ghost host, registered under the recipient's address.  When the
    /// link is already up, the new ghost joins its group channels at once.
    pub fn setup_contact_for(&mut self, recip: &Recipient, addr: PduAddr, now: i64) -> (r: Result<
        (),
        String,
    >)
        requires
            old(self).wf(),
            old(self).spec_contact_for(addr@) is None,
        ensures
            final(self)@.remote_sid == old(self)@.remote_sid,
            final(self).wf(),
            r is Ok ==> final(self).spec_contact_for(addr@) is Some,
            r is Ok ==> final(self)@.contacts.len() == old(self)@.contacts.len() + 1,
            old(self)@.state != LinkState::Linked && old(self)@.next_user_id <= 99999 ==> r is Ok,
            (old(self)@.state != LinkState::Linked && r is Ok && spec_un_normalize(
                recip@.phone_number,
            ) == Some(addr@)) ==> (final(self)@.outbox == old(self)@.outbox.push(
                spec_uid_line(
                    old(self).cfg.sid@,
                    spec_uuid_str(old(self).cfg.sid@, old(self)@.next_user_id),
                    spec_ghost_user(old(self).cfg.server_name@, recip@, now),
                ),
            ) && final(self)@.contacts == old(self)@.contacts.push(
                (
                    addr@,
                    InspContactView {
                        uuid: spec_uuid_str(old(self).cfg.sid@, old(self)@.next_user_id),
                        channels: Seq::<Seq<char>>::empty(),
                        wa_mode: recip@.whatsapp,
                    },
                ),
            ) && final(self)@.next_user_id == old(self)@.next_user_id + 1 && final(self)@.users
                == old(self)@.users.push(
                (
                    spec_uuid_str(old(self).cfg.sid@, old(self)@.next_user_id),
                    spec_ghost_user(old(self).cfg.server_name@, recip@, now),
                ),
            )),
            final(self)@.state == old(self)@.state,
            old(self)@.outbox.is_prefix_of(final(self)@.outbox),
            final(self)@.store == old(self)@.store,
            final(self)@.wa_outbox == old(self)@.wa_outbox,
            final(self)@.m_outbox == old(self)@.m_outbox,
            final(self)@.cf_outbox == old(self)@.cf_outbox,
            final(self)@.cb_outbox == old(self)@.cb_outbox,
            final(self).cfg == old(self).cfg,
            forall|c: int|
                0 <= c < final(self)@.contacts.len() ==> ((exists|k: int|
                    0 <= k < old(self)@.contacts.len() && (#[trigger] old(self)@.contacts[k]).0
                        == (#[trigger] final(self)@.contacts[c]).0) || final(self)@.contacts[c].0
                    == addr@),
            final(self)@.users.len() >= old(self)@.users.len(),
            forall|k: int|
                0 <= k < old(self)@.users.len() ==> (#[trigger] final(self)@.users[k]).0
                    == old(self)@.users[k].0,
    {
        let host = self.host_for_wa(recip.whatsapp);
        let user = InspUser::new_from_recipient(&addr, recip.nick.clone(), host.as_str(), now);
        proof {
            if spec_un_normalize(recip@.phone_number) == Some(addr@) {
                assert(user@ =~= spec_ghost_user(self.cfg.server_name@, recip@, now));
            }
        }
        let uuid = match self.new_user(user) {
            Ok(u) => u,
            Err(e) => {
                proof {
                    assert(old(self)@.outbox.is_prefix_of(final(self)@.outbox));
                }
                return Err(e);
            },
        };
        let contact = InspContact { uuid: uuid.clone(), channels: Vec::new(), wa_mode: recip.whatsapp };
        let ghost addrv = addr@;
        let ghost before_contacts = self@.contacts;
        self.contacts.push((addr, contact));
        proof {
            assert(self@.contacts =~= before_contacts.push(
                (addrv, self.contacts@.last().1@),
            ));
            assert forall|i: int, j: int|
                0 <= i < j < self@.contacts.len() implies (#[trigger] self@.contacts[i]).0 != (
            #[trigger] self@.contacts[j]).0 by {
                if j < self@.contacts.len() - 1 {
                    assert(self@.contacts[i] == before_contacts[i]);
                    assert(self@.contacts[j] == before_contacts[j]);
                } else {
                    assert(self@.contacts[i] == before_contacts[i]);
                    lemma_lookup_contact(before_contacts, addrv);
                }
            }
            lemma_lookup_contact(self@.contacts, addrv);
            match lookup_contact(self@.contacts, addrv) {
                Some(x) => {},
                None => {
                    assert(self@.contacts[self@.contacts.len() - 1].0 == addrv);
                    assert(false);
                },
            }
        }
        if self.state == LinkState::Linked {
            let a2 = clone_addr(&self.contacts[self.contacts.len() - 1].0);
            let res = self.process_groups_for_recipient(&a2);
            match res {
                Ok(()) => Ok(()),
                Err(e) => Err(e),
            }
        } else {
            proof {
                assert(old(self)@.next_user_id <= 99999);
                assert(uuid@ == spec_uuid_str(old(self).cfg.sid@, old(self)@.next_user_id));
                assert(self@.contacts.last().1 =~= (InspContactView {
                    uuid: spec_uuid_str(old(self).cfg.sid@, old(self)@.next_user_id),
                    channels: Seq::<Seq<char>>::empty(),
                    wa_mode: recip@.whatsapp,
                }));
                assert(self@.contacts.last().0 == addrv);
                assert(self@.contacts.drop_last() =~= old(self)@.contacts);
                assert(self@.contacts =~= old(self)@.contacts.push(
                    (
                        addrv,
                        InspContactView {
                            uuid: spec_uuid_str(old(self).cfg.sid@, old(self)@.next_user_id),
                            channels: Seq::<Seq<char>>::empty(),
                            wa_mode: recip@.whatsapp,
                        },
                    ),
                ));
            }
            Ok(())
        }
    }

    /// Removes the live ghost for an address, announcing its departure.
    /// Nothing happens when no ghost is live for the address.
    pub fn remove_contact_for(&mut self, addr: &PduAddr)
        requires
            old(self).wf(),
        ensures
            final(self).cfg == old(self).cfg,
            final(self).wf(),
            final(self).spec_contact_for(addr@) is None,
            final(self)@.contacts == old(self)@.contacts.filter(
                |q: (AddrView, InspContactView)| q.0 != addr@,
            ),
            final(self)@.users == old(self)@.users,
            final(self)@.wa_outbox == old(self)@.wa_outbox,
            final(self)@.m_outbox == old(self)@.m_outbox,
            final(self)@.cf_outbox == old(self)@.cf_outbox,
            final(self)@.cb_outbox == old(self)@.cb_outbox,
            final(self)@.remote_sid == old(self)@.remote_sid,
            final(self)@.state == old(self)@.state,
            old(self)@.outbox.is_prefix_of(final(self)@.outbox),
            final(self)@.store == old(self)@.store,
    {
        match self.find_contact_index(addr) {
            Some(i) => {
                let uu = self.contacts[i].1.uuid.clone();
                let mut args: Vec<String> = Vec::new();
                let line = IrcLine::new(
                    Some(uu),
                    "QUIT",
                    args,
                    Some(String::from_str("Contact removed")),
                );
                self.send(line);
            },
            None => {},
        }
        let ghost p = |q: (AddrView, InspContactView)| q.0 != addr@;
        let cnt = self.contacts.len();
        let mut kept: Vec<(PduAddr, InspContact)> = Vec::new();
        let mut i: usize = 0;
        let ghost cv = self@.contacts;
        proof {
            reveal(Seq::filter);
        }
        while i < cnt
            invariant
                cnt == self.contacts@.len(),
                i <= cnt,
                cv == self@.contacts,
                p == (|q: (AddrView, InspContactView)| q.0 != addr@),
                cviews(kept@) == cv.subrange(0, i as int).filter(p),
            decreases cnt - i,
        {
            proof {
                reveal(Seq::filter);
                assert(cv.subrange(0, i + 1).drop_last() == cv.subrange(0, i as int));
                assert(cv.subrange(0, i + 1).last() == cv[i as int]);
            }
            if !self.contacts[i].0.addr_eq(addr) {
                let a2 = clone_addr(&self.contacts[i].0);
                let c2 = InspContact {
                    uuid: self.contacts[i].1.uuid.clone(),
                    channels: clone_string_vec(&self.contacts[i].1.channels),
                    wa_mode: self.contacts[i].1.wa_mode,
                };
                proof {
                    assert((a2@, c2@) =~= cv[i as int]);
                }
                kept.push((a2, c2));
            }
            i = i + 1;
            proof {
                assert(cviews(kept@) =~= cv.subrange(0, i as int).filter(p));
            }
        }
        proof {
            assert(cv.subrange(0, cnt as int) == cv);
        }
        self.contacts = kept;
        proof {
            let fv = cv.filter(p);
            crate::store::lemma_filter_sorted(
                cv,
                p,
                |a: (AddrView, InspContactView), b: (AddrView, InspContactView)| a.0 != b.0,
            );
            lemma_lookup_contact(self@.contacts, addr@);
            match lookup_contact(self@.contacts, addr@) {
                Some(x) => {
                    let w = choose|w: int|
                        0 <= w < fv.len() && (#[trigger] fv[w]).0 == addr@ && fv[w].1 == x
                            && forall|j: int| 0 <= j < w ==> (#[trigger] fv[j]).0 != addr@;
                    cv.lemma_filter_pred(p, w);
                    assert(false);
                },
                None => {},
            }
        }
    }
}

impl InspLink {
    /// Records a channel as bridged; a known channel is not repeated.
    fn add_channel(&mut self, c: String)
        ensures
            *final(self) == (InspLink { channels: final(self).channels, ..*old(self) }),
            final(self)@.channels == if old(self)@.channels.contains(c@) {
                old(self)@.channels
            } else {
                old(self)@.channels.push(c@)
            },
    {
        let cnt = self.channels.len();
        let mut i: usize = 0;
        while i < cnt
            invariant
                cnt == self.channels@.len(),
                i <= cnt,
                forall|j: int| 0 <= j < i ==> self@.channels[j] != c@,
            decreases cnt - i,
        {
            if util::string_eq(&self.channels[i], c.as_str()) {
                proof {
                    assert(self@.channels[i as int] == c@);
                    assert(self@.channels.contains(c@));
                }
                return;
            }
            i = i + 1;
        }
        proof {
            assert(!old(self)@.channels.contains(c@));
        }
        let ghost cv = c@;
        self.channels.push(c);
        proof {
            assert(final(self)@.channels =~= old(self)@.channels.push(cv));
        }
    }

    /// Whether a channel is bridged.
    pub fn is_bridged_channel(&self, c: &str) -> (r: bool)
        ensures
            r == self@.channels.contains(c@),
    {
        let cnt = self.channels.len();
        let mut i: usize = 0;
        while i < cnt
            invariant
                cnt == self.channels@.len(),
                i <= cnt,
                forall|j: int| 0 <= j < i ==> self@.channels[j] != c@,
            decreases cnt - i,
        {
            if util::string_eq(&self.channels[i], c) {
                proof {
                    assert(self@.channels[i as int] == c@);
                }
                return true;
            }
            i = i + 1;
        }
        false
    }

    /// Reconciles a ghost's memberships: its required channels are the
    /// channels of every group its recipient takes part in, plus the log
    /// channel.  Only the incremental lines go out: a JOIN per newly
    /// required channel, a PART per channel no longer required; channels
    /// held before and after stay silent.  Fails when the address has no
    /// recipient row.
    pub fn process_groups_for_recipient(&mut self, a: &PduAddr) -> (r: Result<(), String>)
        requires
            old(self).wf(),
            old(self).spec_contact_for(a@) is Some,
        ensures
            final(self)@.remote_sid == old(self)@.remote_sid,
            final(self).wf(),
            final(self)@.state == old(self)@.state,
            final(self)@.store == old(self)@.store,
            old(self)@.outbox.is_prefix_of(final(self)@.outbox),
            final(self)@.wa_outbox == old(self)@.wa_outbox,
            final(self)@.m_outbox == old(self)@.m_outbox,
            final(self)@.cf_outbox == old(self)@.cf_outbox,
            final(self)@.cb_outbox == old(self)@.cb_outbox,
            final(self)@.users == old(self)@.users,
            final(self)@.next_user_id == old(self)@.next_user_id,
            final(self)@.channel_topics == old(self)@.channel_topics,
            final(self).cfg == old(self).cfg,
            r is Ok <==> old(self).store.spec_recipient_by_phone(spec_normalize(a@)) is Some,
            r is Ok ==> (final(self).spec_contact_for(a@) matches Some(ct) && ({
                let rec = old(self).store.spec_recipient_by_phone(spec_normalize(a@)).unwrap();
                let cs = old(self)@.store.groups.filter(
                    |g: crate::models::GroupView| g.participants.contains(rec.id),
                ).map_values(|g: crate::models::GroupView| g.channel);
                ct.channels == if cs.contains(old(self).cfg.log_chan@) {
                    cs
                } else {
                    cs.push(old(self).cfg.log_chan@)
                }
            })),
            final(self)@.contacts.len() == old(self)@.contacts.len(),
            forall|i: int|
                0 <= i < final(self)@.contacts.len() ==> ((#[trigger] final(self)@.contacts[i]).0
                    == old(self)@.contacts[i].0 && final(self)@.contacts[i].1.uuid == old(self)@.contacts[i].1.uuid && final(self)@.contacts[i].1.wa_mode == old(self)@.contacts[i].1.wa_mode),
            // every JOIN that goes out names a channel the ghost did not hold
            r is Ok ==> (forall|k: int|
                old(self)@.outbox.len() <= k < final(self)@.outbox.len()
                    && (#[trigger] final(self)@.outbox[k]).command == "JOIN"@
                    ==> final(self)@.outbox[k].args.len() == 1 && !old(self).spec_contact_for(
                    a@,
                ).unwrap().channels.contains(final(self)@.outbox[k].args[0])),
            // every newly required channel gets its JOIN
            r is Ok ==> (final(self).spec_contact_for(a@) matches Some(ct2) && (forall|ci: int|
                0 <= ci < ct2.channels.len() && !old(self).spec_contact_for(
                    a@,
                ).unwrap().channels.contains(#[trigger] ct2.channels[ci])
                    ==> final(self)@.outbox.contains(spec_line(
                    Some(old(self).spec_contact_for(a@).unwrap().uuid),
                    "JOIN"@,
                    seq![ct2.channels[ci]],
                    None,
                )))),
            // every channel no longer required gets its PART
            r is Ok ==> (final(self).spec_contact_for(a@) matches Some(ct2) && (forall|j: int|
                0 <= j < old(self).spec_contact_for(a@).unwrap().channels.len()
                    && !ct2.channels.contains(
                    #[trigger] old(self).spec_contact_for(a@).unwrap().channels[j],
                ) ==> final(self)@.outbox.contains(spec_line(
                    Some(old(self).spec_contact_for(a@).unwrap().uuid),
                    "PART"@,
                    seq![old(self).spec_contact_for(a@).unwrap().channels[j]],
                    Some("Left group"@),
                )))),
    {
        let grps = match self.store.get_groups_for_recipient(a) {
            Some(g) => g,
            None => {
                return Err(String::from_str("no recipient row for ghost"));
            },
        };
        let idx = match self.find_contact_index(a) {
            Some(i) => i,
            None => {
                proof {
                    assert(false);
                }
                return Err(String::new());
            },
        };
        let uuid = self.contacts[idx].1.uuid.clone();
        let wa_mode = self.contacts[idx].1.wa_mode;
        let old_chans = clone_string_vec(&self.contacts[idx].1.channels);
        let ghost ocv = old_chans@.map_values(|s: String| s@);
        let ghost oct = old(self).spec_contact_for(a@).unwrap();
        let ghost obase = old(self)@.outbox.len() as int;
        proof {
            assert(oct == old(self)@.contacts[idx as int].1);
            assert(oct.uuid == uuid@);
            assert(oct.channels =~= ocv) by {
                assert forall|i: int| 0 <= i < ocv.len() implies ocv[i] == oct.channels[i] by {
                    assert(ocv[i] == old_chans@[i]@);
                }
            }
        }
        let ghost rec = old(self).store.spec_recipient_by_phone(spec_normalize(a@)).unwrap();
        let ghost gv = crate::store::gviews(grps@);
        let ghost csv = gv.map_values(|g: crate::models::GroupView| g.channel);
        let mut chans: Vec<String> = Vec::new();
        let gcnt = grps.len();
        let mut gi: usize = 0;
        proof {
            assert(chans@.map_values(|s: String| s@) =~= csv.subrange(0, 0));
        }
        while gi < gcnt
            invariant
                old(self).wf(),
                self.wf(),
                gcnt == grps@.len(),
                gi <= gcnt,
                gv == crate::store::gviews(grps@),
                csv == gv.map_values(|g: crate::models::GroupView| g.channel),
                csv.len() == gcnt,
                (idx as int) < old(self)@.contacts.len(),
                uuid@ == old(self)@.contacts[idx as int].1.uuid,
                chans@.map_values(|s: String| s@) == csv.subrange(0, gi as int),
                *self == (InspLink {
                    outbox: self.outbox,
                    channels: self.channels,
                    ..*old(self)
                }),
                old(self)@.outbox.is_prefix_of(self@.outbox),
                ocv == old_chans@.map_values(|s: String| s@),
                obase == old(self)@.outbox.len(),
                forall|k: int|
                    obase <= k < self@.outbox.len() && (#[trigger] self@.outbox[k]).command
                        == "JOIN"@ ==> self@.outbox[k].args.len() == 1 && !ocv.contains(
                        self@.outbox[k].args[0],
                    ),
                forall|c2: int|
                    0 <= c2 < gi && !ocv.contains(#[trigger] csv[c2]) ==> self@.outbox.contains(
                        spec_line(Some(uuid@), "JOIN"@, seq![csv[c2]], None),
                    ),
            decreases gcnt - gi,
        {
            let ghost pre = self@.outbox;
            // only a newly required channel is joined; a held one is kept
            let mut was_held: bool = false;
            let hcnt = old_chans.len();
            let mut hi: usize = 0;
            while hi < hcnt
                invariant
                    hcnt == old_chans@.len(),
                    hi <= hcnt,
                    gi < gcnt == grps@.len(),
                    was_held <==> exists|h: int|
                        0 <= h < hi && (#[trigger] old_chans@[h])@ == grps@[gi as int]@.channel,
                decreases hcnt - hi,
            {
                if util::string_eq(&old_chans[hi], grps[gi].channel.as_str()) {
                    was_held = true;
                    proof {
                        assert(old_chans@[hi as int]@ == grps@[gi as int]@.channel);
                    }
                }
                hi = hi + 1;
            }
            if !was_held {
                proof {
                    assert(!ocv.contains(grps@[gi as int]@.channel)) by {
                        if ocv.contains(grps@[gi as int]@.channel) {
                            let h = choose|h: int|
                                0 <= h < ocv.len() && ocv[h] == grps@[gi as int]@.channel;
                            assert((#[trigger] old_chans@[h])@ == ocv[h]);
                        }
                    }
                }
                let mut args: Vec<String> = Vec::new();
                args.push(grps[gi].channel.clone());
                let line = IrcLine::new(Some(uuid.clone()), "JOIN", args, None);
                self.send(line);
                proof {
                    assert(old(self)@.outbox.is_prefix_of(self@.outbox)) by {
                        assert(self@.outbox.subrange(0, old(self)@.outbox.len() as int)
                            =~= old(self)@.outbox);
                    }
                    assert(csv[gi as int] == gv[gi as int].channel);
                    assert(gv[gi as int] == grps@[gi as int]@);
                    assert(line@.args =~= seq![csv[gi as int]]);
                    assert(line@ == spec_line(Some(uuid@), "JOIN"@, seq![csv[gi as int]], None));
                    assert(self@.outbox[pre.len() as int] == line@);
                    assert(self@.outbox.contains(
                        spec_line(Some(uuid@), "JOIN"@, seq![csv[gi as int]], None),
                    ));
                }
            }
            chans.push(grps[gi].channel.clone());
            self.add_channel(grps[gi].channel.clone());
            proof {
                if was_held {
                    let h = choose|h: int|
                        0 <= h < old_chans@.len() && (#[trigger] old_chans@[h])@ == grps@[gi as int]@.channel;
                    assert(ocv[h] == old_chans@[h]@);
                    assert(csv[gi as int] == gv[gi as int].channel);
                    assert(gv[gi as int] == grps@[gi as int]@);
                    assert(ocv.contains(csv[gi as int]));
                }
                assert(pre.is_prefix_of(self@.outbox)) by {
                    assert(self@.outbox.subrange(0, pre.len() as int) =~= pre);
                }
                assert forall|c2: int|
                    0 <= c2 < gi + 1 && !ocv.contains(#[trigger] csv[c2]) implies self@.outbox.contains(
                    spec_line(Some(uuid@), "JOIN"@, seq![csv[c2]], None),
                ) by {
                    if c2 < gi {
                        crate::store::lemma_prefix_keeps_contains(
                            pre,
                            self@.outbox,
                            spec_line(Some(uuid@), "JOIN"@, seq![csv[c2]], None),
                        );
                    }
                }
                assert forall|k: int|
                    obase <= k < self@.outbox.len() && (#[trigger] self@.outbox[k]).command
                        == "JOIN"@ implies self@.outbox[k].args.len() == 1 && !ocv.contains(
                    self@.outbox[k].args[0],
                ) by {
                    if k < pre.len() {
                        assert(self@.outbox[k] == pre[k]);
                    }
                }
            }
            gi = gi + 1;
            proof {
                assert(csv.subrange(0, gi as int).drop_last() =~= csv.subrange(0, gi - 1));
                assert(csv[gi - 1] == gv[gi - 1].channel);
                assert(gv[gi - 1] == grps@[gi - 1]@);
                assert(chans@.last()@ == grps@[gi - 1]@.channel);
                assert(chans@.map_values(|s: String| s@) =~= csv.subrange(0, gi as int));
            }
        }
        proof {
            assert(csv.subrange(0, gcnt as int) == csv);
        }
        let mut has_log: bool = false;
        let ccnt = chans.len();
        let mut ci: usize = 0;
        while ci < ccnt
            invariant
                ccnt == chans@.len(),
                ci <= ccnt,
                csv == chans@.map_values(|s: String| s@),
                has_log <==> exists|j: int|
                    0 <= j < ci && (#[trigger] chans@[j])@ == self.cfg.log_chan@,
            decreases ccnt - ci,
        {
            if util::string_eq(&chans[ci], self.cfg.log_chan.as_str()) {
                has_log = true;
                proof {
                    assert(chans@[ci as int]@ == self.cfg.log_chan@);
                }
            }
            ci = ci + 1;
        }
        proof {
            if has_log {
                let j = choose|j: int|
                    0 <= j < ccnt && (#[trigger] chans@[j])@ == old(self).cfg.log_chan@;
                assert(csv[j] == old(self).cfg.log_chan@);
                assert(csv.contains(old(self).cfg.log_chan@));
            } else {
                assert forall|j: int| 0 <= j < csv.len() implies csv[j] != old(self).cfg.log_chan@ by {
                    assert(csv[j] == chans@[j]@);
                }
                assert(!csv.contains(old(self).cfg.log_chan@));
            }
        }
        let ghost pre2 = self@.outbox;
        if !has_log {
            let mut log_held: bool = false;
            let hcnt = old_chans.len();
            let mut hi: usize = 0;
            while hi < hcnt
                invariant
                    hcnt == old_chans@.len(),
                    hi <= hcnt,
                    log_held <==> exists|h: int|
                        0 <= h < hi && (#[trigger] old_chans@[h])@ == self.cfg.log_chan@,
                decreases hcnt - hi,
            {
                if util::string_eq(&old_chans[hi], self.cfg.log_chan.as_str()) {
                    log_held = true;
                    proof {
                        assert(old_chans@[hi as int]@ == self.cfg.log_chan@);
                    }
                }
                hi = hi + 1;
            }
            if log_held {
                proof {
                    let h = choose|h: int|
                        0 <= h < old_chans@.len() && (#[trigger] old_chans@[h])@
                            == self.cfg.log_chan@;
                    assert(ocv[h] == old_chans@[h]@);
                    assert(ocv.contains(old(self).cfg.log_chan@));
                }
            } else {
                proof {
                    assert(!ocv.contains(old(self).cfg.log_chan@)) by {
                        if ocv.contains(old(self).cfg.log_chan@) {
                            let h = choose|h: int|
                                0 <= h < ocv.len() && ocv[h] == old(self).cfg.log_chan@;
                            assert((#[trigger] old_chans@[h])@ == ocv[h]);
                        }
                    }
                }
                let mut args: Vec<String> = Vec::new();
                args.push(self.cfg.log_chan.clone());
                let line = IrcLine::new(Some(uuid.clone()), "JOIN", args, None);
                self.send(line);
                proof {
                    assert(old(self)@.outbox.is_prefix_of(self@.outbox)) by {
                        assert(self@.outbox.subrange(0, old(self)@.outbox.len() as int)
                            =~= old(self)@.outbox);
                    }
                    assert(line@.args =~= seq![old(self).cfg.log_chan@]);
                    assert(line@ == spec_line(
                        Some(uuid@),
                        "JOIN"@,
                        seq![old(self).cfg.log_chan@],
                        None,
                    ));
                    assert(self@.outbox[pre2.len() as int] == line@);
                    assert(self@.outbox.contains(
                        spec_line(Some(uuid@), "JOIN"@, seq![old(self).cfg.log_chan@], None),
                    ));
                }
            }
            chans.push(self.cfg.log_chan.clone());
        }
        let ghost new_chans = chans@.map_values(|s: String| s@);
        proof {
            if csv.contains(old(self).cfg.log_chan@) {
                assert(new_chans =~= csv);
            } else {
                assert(new_chans =~= csv.push(old(self).cfg.log_chan@));
            }
            assert(pre2.is_prefix_of(self@.outbox)) by {
                assert(self@.outbox.subrange(0, pre2.len() as int) =~= pre2);
            }
            // the JOIN facts survive the possible log-channel line
            assert forall|k: int|
                obase <= k < self@.outbox.len() && (#[trigger] self@.outbox[k]).command == "JOIN"@
                implies self@.outbox[k].args.len() == 1 && !ocv.contains(
                self@.outbox[k].args[0],
            ) by {
                if k < pre2.len() {
                    assert(self@.outbox[k] == pre2[k]);
                }
            }
            assert forall|ci2: int|
                0 <= ci2 < new_chans.len() && !ocv.contains(#[trigger] new_chans[ci2])
                implies self@.outbox.contains(
                spec_line(Some(uuid@), "JOIN"@, seq![new_chans[ci2]], None),
            ) by {
                if ci2 < csv.len() {
                    assert(new_chans[ci2] == csv[ci2]);
                    crate::store::lemma_prefix_keeps_contains(
                        pre2,
                        self@.outbox,
                        spec_line(Some(uuid@), "JOIN"@, seq![csv[ci2]], None),
                    );
                } else {
                    assert(new_chans[ci2] == old(self).cfg.log_chan@);
                }
            }
        }
        // part the ghost from channels it no longer belongs to
        let ocnt = old_chans.len();
        let mut oi: usize = 0;
        while oi < ocnt
            invariant
                ocnt == old_chans@.len(),
                oi <= ocnt,
                (idx as int) < old(self)@.contacts.len(),
                uuid@ == old(self)@.contacts[idx as int].1.uuid,
                *self == (InspLink {
                    outbox: self.outbox,
                    channels: self.channels,
                    ..*old(self)
                }),
                old(self)@.outbox.is_prefix_of(self@.outbox),
                chans@.map_values(|s: String| s@) == new_chans,
                ocv == old_chans@.map_values(|s: String| s@),
                obase == old(self)@.outbox.len(),
                forall|k: int|
                    obase <= k < self@.outbox.len() && (#[trigger] self@.outbox[k]).command
                        == "JOIN"@ ==> self@.outbox[k].args.len() == 1 && !ocv.contains(
                        self@.outbox[k].args[0],
                    ),
                forall|ci2: int|
                    0 <= ci2 < new_chans.len() && !ocv.contains(#[trigger] new_chans[ci2])
                        ==> self@.outbox.contains(spec_line(
                        Some(uuid@),
                        "JOIN"@,
                        seq![new_chans[ci2]],
                        None,
                    )),
                forall|j: int|
                    0 <= j < oi ==> new_chans.contains(#[trigger] ocv[j]) || self@.outbox.contains(
                        spec_line(Some(uuid@), "PART"@, seq![ocv[j]], Some("Left group"@)),
                    ),
            decreases ocnt - oi,
        {
            let ghost prep = self@.outbox;
            let mut found: bool = false;
            let ncnt = chans.len();
            let mut ni: usize = 0;
            while ni < ncnt
                invariant
                    ncnt == chans@.len(),
                    ni <= ncnt,
                    oi < ocnt == old_chans@.len(),
                    found <==> exists|n: int|
                        0 <= n < ni && (#[trigger] chans@[n])@ == old_chans@[oi as int]@,
                decreases ncnt - ni,
            {
                if util::string_eq(&chans[ni], old_chans[oi].as_str()) {
                    found = true;
                    proof {
                        assert(chans@[ni as int]@ == old_chans@[oi as int]@);
                    }
                }
                ni = ni + 1;
            }
            if !found {
                let mut args: Vec<String> = Vec::new();
                args.push(old_chans[oi].clone());
                let line = IrcLine::new(
                    Some(uuid.clone()),
                    "PART",
                    args,
                    Some(String::from_str("Left group")),
                );
                self.send(line);
                proof {
                    assert(old(self)@.outbox.is_prefix_of(self@.outbox)) by {
                        assert(self@.outbox.subrange(0, old(self)@.outbox.len() as int)
                            =~= old(self)@.outbox);
                    }
                    assert(line@.args =~= seq![ocv[oi as int]]);
                    assert(line@ == spec_line(
                        Some(uuid@),
                        "PART"@,
                        seq![ocv[oi as int]],
                        Some("Left group"@),
                    ));
                    assert(self@.outbox[prep.len() as int] == line@);
                    assert(self@.outbox.contains(
                        spec_line(Some(uuid@), "PART"@, seq![ocv[oi as int]], Some("Left group"@)),
                    ));
                }
            }
            proof {
                if found {
                    let n = choose|n: int|
                        0 <= n < chans@.len() && (#[trigger] chans@[n])@ == old_chans@[oi as int]@;
                    assert(new_chans[n] == chans@[n]@);
                    assert(new_chans.contains(ocv[oi as int]));
                }
                assert(prep.is_prefix_of(self@.outbox)) by {
                    assert(self@.outbox.subrange(0, prep.len() as int) =~= prep);
                }
                assert forall|j: int|
                    0 <= j < oi + 1 implies new_chans.contains(#[trigger] ocv[j])
                        || self@.outbox.contains(
                        spec_line(Some(uuid@), "PART"@, seq![ocv[j]], Some("Left group"@)),
                    ) by {
                    if j < oi && !new_chans.contains(ocv[j]) {
                        crate::store::lemma_prefix_keeps_contains(
                            prep,
                            self@.outbox,
                            spec_line(Some(uuid@), "PART"@, seq![ocv[j]], Some("Left group"@)),
                        );
                    }
                }
                assert forall|ci2: int|
                    0 <= ci2 < new_chans.len() && !ocv.contains(#[trigger] new_chans[ci2])
                    implies self@.outbox.contains(
                    spec_line(Some(uuid@), "JOIN"@, seq![new_chans[ci2]], None),
                ) by {
                    crate::store::lemma_prefix_keeps_contains(
                        prep,
                        self@.outbox,
                        spec_line(Some(uuid@), "JOIN"@, seq![new_chans[ci2]], None),
                    );
                }
                assert forall|k: int|
                    obase <= k < self@.outbox.len() && (#[trigger] self@.outbox[k]).command
                        == "JOIN"@ implies self@.outbox[k].args.len() == 1 && !ocv.contains(
                    self@.outbox[k].args[0],
                ) by {
                    if k < prep.len() {
                        assert(self@.outbox[k] == prep[k]);
                    } else {
                        assert(self@.outbox[k].command == "PART"@);
                        assert("PART"@ != "JOIN"@) by {
                            reveal_strlit("JOIN");
                            reveal_strlit("PART");
                            assert("PART"@.len() == 4);
                            assert("PART"@[0] == 'P');
                            assert("JOIN"@[0] == 'J');
                        }
                    }
                }
            }
            oi = oi + 1;
        }
        // record the new memberships on the contact
        let a2 = clone_addr(&self.contacts[idx].0);
        let newct = InspContact { uuid, channels: chans, wa_mode };
        let ghost cv_before = self@.contacts;
        self.contacts.set(idx, (a2, newct));
        proof {
            assert(self@.contacts =~= cv_before.update(
                idx as int,
                (old(self)@.contacts[idx as int].0, self.contacts@[idx as int].1@),
            ));
            assert forall|i: int, j: int|
                0 <= i < j < self@.contacts.len() implies (#[trigger] self@.contacts[i]).0 != (
            #[trigger] self@.contacts[j]).0 by {
                assert(self@.contacts[i].0 == old(self)@.contacts[i].0);
                assert(self@.contacts[j].0 == old(self)@.contacts[j].0);
            }
            lemma_lookup_contact(self@.contacts, a@);
            match lookup_contact(self@.contacts, a@) {
                Some(x) => {
                    let w = choose|w: int|
                        0 <= w < self@.contacts.len() && (#[trigger] self@.contacts[w]).0 == a@
                            && self@.contacts[w].1 == x && forall|v: int|
                            0 <= v < w ==> (#[trigger] self@.contacts[v]).0 != a@;
                    assert(w == idx as int) by {
                        if w < idx as int {
                            assert(self@.contacts[w].0 == old(self)@.contacts[w].0);
                        } else if w > idx as int {
                            assert(self@.contacts[idx as int].0 != a@);
                        }
                    }
                },
                None => {
                    assert(self@.contacts[idx as int].0 != a@);
                    assert(false);
                },
            }
        }
        Ok(())
    }

    /// Sends one line with the server id as prefix.
    pub fn send_sid_line(&mut self, cmd: &str, args: Vec<String>, suffix: Option<String>)
        ensures
            *final(self) == (InspLink { outbox: final(self).outbox, ..*old(self) }),
            final(self)@.outbox == old(self)@.outbox.push(
                spec_line(
                    Some(old(self).cfg.sid@),
                    cmd@,
                    args@.map_values(|x: String| x@),
                    view_opt_string(suffix),
                ),
            ),
    {
        let line = IrcLine::new(Some(self.cfg.sid.clone()), cmd, args, suffix);
        self.send(line);
    }

    /// Creates the ghost for a recipient row; a no-op when one is already
    /// live.  Fails when the stored phone number does not decode, when the
    /// UUID space is exhausted, or when the link is up and the recipient
    /// row has meanwhile vanished.
    pub fn setup_recipient(&mut self, recip: &Recipient, now: i64) -> (r: Result<(), String>)
        requires
            old(self).wf(),
        ensures
            final(self)@.remote_sid == old(self)@.remote_sid,
            final(self).wf(),
            final(self)@.state == old(self)@.state,
            old(self)@.outbox.is_prefix_of(final(self)@.outbox),
            final(self)@.store == old(self)@.store,
            final(self)@.wa_outbox == old(self)@.wa_outbox,
            final(self)@.m_outbox == old(self)@.m_outbox,
            final(self)@.cf_outbox == old(self)@.cf_outbox,
            final(self)@.cb_outbox == old(self)@.cb_outbox,
            final(self).cfg == old(self).cfg,
            spec_un_normalize(recip@.phone_number) is None ==> (r is Err && *final(self) == *old(self)),
            (spec_un_normalize(recip@.phone_number) is Some && old(self)@.state
                != LinkState::Linked && old(self)@.next_user_id <= 99999) ==> r is Ok,
            forall|c: int|
                0 <= c < final(self)@.contacts.len() ==> ((exists|k: int|
                    0 <= k < old(self)@.contacts.len() && (#[trigger] old(self)@.contacts[k]).0
                        == (#[trigger] final(self)@.contacts[c]).0) || spec_un_normalize(
                    recip@.phone_number,
                ) == Some(final(self)@.contacts[c].0)),
            spec_un_normalize(recip@.phone_number) matches Some(av) ==> ((old(self).spec_contact_for(av) is Some ==> (r is Ok && *final(self) == *old(self))) && (r is Ok
                ==> final(self).spec_contact_for(av) is Some) && ((old(self)@.state
                != LinkState::Linked && old(self).spec_contact_for(av) is None && r is Ok) ==> (
            final(self)@.outbox == old(self)@.outbox.push(
                spec_uid_line(
                    old(self).cfg.sid@,
                    spec_uuid_str(old(self).cfg.sid@, old(self)@.next_user_id),
                    spec_ghost_user(old(self).cfg.server_name@, recip@, now),
                ),
            ) && final(self)@.contacts == old(self)@.contacts.push(
                (
                    av,
                    InspContactView {
                        uuid: spec_uuid_str(old(self).cfg.sid@, old(self)@.next_user_id),
                        channels: Seq::<Seq<char>>::empty(),
                        wa_mode: recip@.whatsapp,
                    },
                ),
            ) && final(self)@.next_user_id == old(self)@.next_user_id + 1 && final(self)@.users
                == old(self)@.users.push(
                (
                    spec_uuid_str(old(self).cfg.sid@, old(self)@.next_user_id),
                    spec_ghost_user(old(self).cfg.server_name@, recip@, now),
                ),
            )))),
            final(self)@.users.len() >= old(self)@.users.len(),
            forall|k: int|
                0 <= k < old(self)@.users.len() ==> (#[trigger] final(self)@.users[k]).0
                    == old(self)@.users[k].0,
    {
        let addr = match recip.get_addr() {
            Some(a) => a,
            None => {
                return Err(String::from_str("invalid number in recipient row"));
            },
        };
        if self.has_contact(&addr) {
            return Ok(());
        }
        self.setup_contact_for(recip, addr, now)
    }

    /// Creates the ghost for the recipient stored under an address, if the
    /// store knows the address; otherwise nothing happens.
    pub fn setup_contact(&mut self, a: &PduAddr, now: i64) -> (r: Result<(), String>)
        requires
            old(self).wf(),
        ensures
            final(self).wf(),
            final(self)@.state == old(self)@.state,
            old(self)@.outbox.is_prefix_of(final(self)@.outbox),
            final(self)@.store == old(self)@.store,
            final(self)@.wa_outbox == old(self)@.wa_outbox,
            final(self)@.m_outbox == old(self)@.m_outbox,
            final(self)@.cf_outbox == old(self)@.cf_outbox,
            final(self)@.cb_outbox == old(self)@.cb_outbox,
            final(self).cfg == old(self).cfg,
            old(self).store.spec_recipient_by_phone(spec_normalize(a@)) is None ==> (r is Ok
                && *final(self) == *old(self)),
            old(self).store.spec_recipient_by_phone(spec_normalize(a@)) matches Some(rec) ==> ({
                &&& (spec_un_normalize(rec.phone_number) is None ==> (r is Err && *final(self)
                    == *old(self)))
                &&& (spec_un_normalize(rec.phone_number) matches Some(av) ==> ((old(self).spec_contact_for(av) is Some ==> (r is Ok && *final(self) == *old(self))) && (r
                    is Ok ==> final(self).spec_contact_for(av) is Some)))
                &&& ((spec_un_normalize(rec.phone_number) is Some && old(self)@.state
                    != LinkState::Linked && old(self)@.next_user_id <= 99999) ==> r is Ok)
            }),
            final(self)@.users.len() >= old(self)@.users.len(),
            forall|k: int|
                0 <= k < old(self)@.users.len() ==> (#[trigger] final(self)@.users[k]).0
                    == old(self)@.users[k].0,
    {
        match self.store.get_recipient_by_addr_opt(a) {
            Some(recip) => self.setup_recipient(&recip, now),
            None => Ok(()),
        }
    }

    /// Attaches to an existing recipient, or asks the owning backend to
    /// create one.  `false` means "not yet available, retry later", never
    /// failure.
    pub fn request_contact(&mut self, a: &PduAddr, src: i32, now: i64) -> (r: Result<bool, String>)
        requires
            old(self).wf(),
        ensures
            final(self).cfg == old(self).cfg,
            final(self).wf(),
            final(self)@.state == old(self)@.state,
            old(self)@.outbox.is_prefix_of(final(self)@.outbox),
            final(self)@.cb_outbox == old(self)@.cb_outbox,
            final(self)@.cf_outbox == old(self)@.cf_outbox,
            final(self)@.store == old(self)@.store,
            old(self).store.spec_recipient_by_phone(spec_normalize(a@)) is Some ==> (r matches Ok(b)
                ==> b) && final(self)@.m_outbox == old(self)@.m_outbox && final(self)@.wa_outbox
                == old(self)@.wa_outbox,
            old(self).store.spec_recipient_by_phone(spec_normalize(a@)) matches Some(rec) ==> (r
                is Ok ==> (spec_un_normalize(rec.phone_number) matches Some(av) ==> final(self).spec_contact_for(av) is Some)),
            old(self).store.spec_recipient_by_phone(spec_normalize(a@)) matches Some(rec)
                ==> forall|c: int|
                0 <= c < final(self)@.contacts.len() ==> ((exists|k: int|
                    0 <= k < old(self)@.contacts.len() && (#[trigger] old(self)@.contacts[k]).0
                        == (#[trigger] final(self)@.contacts[c]).0) || spec_un_normalize(
                    rec.phone_number,
                ) == Some(final(self)@.contacts[c].0)),
            old(self).store.spec_recipient_by_phone(spec_normalize(a@)) is None ==> (r == Ok::<bool, String>(false)
                && final(self)@.store == old(self)@.store && final(self)@.contacts == old(self)@.contacts && final(self)@.m_outbox == (if src == crate::models::SOURCE_SMS {
                old(self)@.m_outbox.push(ModemCommandView::MakeContact(a@))
            } else {
                old(self)@.m_outbox
            }) && final(self)@.wa_outbox == (if src == crate::models::SOURCE_WA {
                old(self)@.wa_outbox.push(WhatsappCommandView::MakeContact(a@))
            } else {
                old(self)@.wa_outbox
            })),
            final(self)@.users.len() >= old(self)@.users.len(),
            forall|k: int|
                0 <= k < old(self)@.users.len() ==> (#[trigger] final(self)@.users[k]).0
                    == old(self)@.users[k].0,
    {
        match self.store.get_recipient_by_addr_opt(a) {
            Some(recip) => {
                match self.setup_recipient(&recip, now) {
                    Ok(()) => Ok(true),
                    Err(e) => Err(e),
                }
            },
            None => {
                if src == crate::models::SOURCE_SMS {
                    self.m_outbox.push(ModemCommand::MakeContact(clone_addr(a)));
                    proof {
                        assert(self@.m_outbox =~= old(self)@.m_outbox.push(
                            ModemCommandView::MakeContact(a@),
                        ));
                    }
                } else if src == crate::models::SOURCE_WA {
                    self.wa_outbox.push(WhatsappCommand::MakeContact(clone_addr(a)));
                    proof {
                        assert(self@.wa_outbox =~= old(self)@.wa_outbox.push(
                            WhatsappCommandView::MakeContact(a@),
                        ));
                    }
                }
                proof {
                    assert(self.store == old(self).store);
                    assert(self@.contacts =~= old(self)@.contacts);
                    assert(self.wf());
                }
                Ok(false)
            },
        }
    }

    /// Reports a contact's nick when it exists, else starts creating it;
    /// either way the answer goes to the control channel.
    pub fn query_contact(&mut self, a: &PduAddr, src: i32, now: i64) -> (r: Result<(), String>)
        requires
            old(self).wf(),
        ensures
            final(self).cfg == old(self).cfg,
            final(self).wf(),
            final(self)@.state == old(self)@.state,
            old(self)@.outbox.is_prefix_of(final(self)@.outbox),
            final(self)@.cb_outbox.len() == old(self)@.cb_outbox.len() + 1,
            final(self)@.store == old(self)@.store,
            match old(self).store.spec_recipient_by_phone(spec_normalize(a@)) {
                Some(rec) => {
                    &&& final(self)@.cb_outbox == old(self)@.cb_outbox.push(
                        ControlBotCommandView::CommandResponse(
                            "Ghost exists already; nickname is `"@ + rec.nick + "`."@,
                        ),
                    )
                    &&& final(self)@.m_outbox == old(self)@.m_outbox
                    &&& final(self)@.wa_outbox == old(self)@.wa_outbox
                    &&& (spec_un_normalize(rec.phone_number) is None ==> r is Err)
                    &&& (spec_un_normalize(rec.phone_number) matches Some(av) ==> (r is Ok
                        ==> final(self).spec_contact_for(av) is Some))
                },
                None => {
                    &&& r is Ok
                    &&& final(self)@.cb_outbox == old(self)@.cb_outbox.push(
                        ControlBotCommandView::CommandResponse(
                            "Setting up a ghost for number `"@ + crate::addr::spec_addr_string(a@)
                                + "`..."@,
                        ),
                    )
                    &&& final(self)@.contacts == old(self)@.contacts
                    &&& final(self)@.m_outbox == (if src == crate::models::SOURCE_SMS {
                        old(self)@.m_outbox.push(ModemCommandView::MakeContact(a@))
                    } else {
                        old(self)@.m_outbox
                    })
                    &&& final(self)@.wa_outbox == (if src == crate::models::SOURCE_WA {
                        old(self)@.wa_outbox.push(WhatsappCommandView::MakeContact(a@))
                    } else {
                        old(self)@.wa_outbox
                    })
                },
            },
    {
        match self.store.get_recipient_by_addr_opt(a) {
            Some(recip) => {
                let mut msg = String::from_str("Ghost exists already; nickname is `");
                msg.append(recip.nick.as_str());
                msg.append("`.");
                proof {
                    assert(msg@ =~= "Ghost exists already; nickname is `"@ + recip.nick@
                        + "`."@);
                }
                self.cb_outbox.push(ControlBotCommand::CommandResponse(msg));
                proof {
                    assert(self@.cb_outbox =~= old(self)@.cb_outbox.push(
                        self.cb_outbox@.last()@,
                    ));
                    assert(self.store == old(self).store);
                    assert(self@.contacts =~= old(self)@.contacts);
                    assert(self.wf());
                }
                self.setup_recipient(&recip, now)
            },
            None => {
                let mut msg = String::from_str("Setting up a ghost for number `");
                let atext = crate::addr::addr_to_string(a);
                msg.append(atext.as_str());
                msg.append("`...");
                proof {
                    assert(msg@ =~= "Setting up a ghost for number `"@
                        + crate::addr::spec_addr_string(a@) + "`..."@);
                }
                self.cb_outbox.push(ControlBotCommand::CommandResponse(msg));
                proof {
                    assert(self@.cb_outbox =~= old(self)@.cb_outbox.push(
                        self.cb_outbox@.last()@,
                    ));
                    assert(self.store == old(self).store);
                    assert(self@.contacts =~= old(self)@.contacts);
                    assert(self.wf());
                }
                match self.request_contact(a, src, now) {
                    Ok(_) => Ok(()),
                    Err(e) => Err(e),
                }
            },
        }
    }

    /// Deletes the recipient row for an address and removes its live
    /// ghost.  Fails when no such row exists.
    pub fn drop_contact(&mut self, addr: &PduAddr) -> (r: Result<(), String>)
        requires
            old(self).wf(),
        ensures
            final(self).cfg == old(self).cfg,
            final(self).wf(),
            final(self)@.state == old(self)@.state,
            old(self)@.outbox.is_prefix_of(final(self)@.outbox),
            r is Ok <==> exists|i: int|
                0 <= i < old(self)@.store.recipients.len() && (#[trigger] old(self)@.store.recipients[i]).phone_number == spec_normalize(addr@),
            r is Ok ==> final(self).spec_contact_for(addr@) is None,
            final(self)@.store.recipients == old(self)@.store.recipients.filter(
                |x: RecipientView| x.phone_number != spec_normalize(addr@),
            ),
    {
        let deleted = self.store.delete_recipient_with_addr(addr);
        proof {
            assert(self@.contacts =~= old(self)@.contacts);
            assert(self.wf());
        }
        match deleted {
            Ok(()) => {
                self.remove_contact_for(addr);
                Ok(())
            },
            Err(e) => {
                self.remove_contact_for(addr);
                Err(String::from_str("no recipient rows deleted"))
            },
        }
    }

    /// Drops the contact a nick resolves to.  An unknown nick changes
    /// nothing and is no error.
    pub fn drop_contact_by_nick(&mut self, nick: &str) -> (r: Result<(), String>)
        requires
            old(self).wf(),
        ensures
            final(self).cfg == old(self).cfg,
            final(self).wf(),
            final(self)@.state == old(self)@.state,
            old(self)@.outbox.is_prefix_of(final(self)@.outbox),
            old(self).spec_resolve_nick(nick@) is None ==> (r is Ok && *final(self) == *old(self)),
            old(self).spec_resolve_nick(nick@) matches Some(av) ==> ({
                &&& final(self)@.store.recipients == old(self)@.store.recipients.filter(
                    |x: RecipientView| x.phone_number != spec_normalize(av),
                )
                &&& (r is Ok <==> exists|i: int|
                    0 <= i < old(self)@.store.recipients.len() && (#[trigger] old(self)@.store.recipients[i]).phone_number == spec_normalize(av))
                &&& (r is Ok ==> final(self).spec_contact_for(av) is None)
            }),
    {
        match self.resolve_nick(nick) {
            Some(a) => self.drop_contact(&a),
            None => Ok(()),
        }
    }

    /// Asks the WhatsApp backend for presence updates on the contact a
    /// nick resolves to.  An unknown nick changes nothing.
    pub fn subscribe_presence_by_nick(&mut self, nick: &str)
        requires
            old(self).wf(),
        ensures
            final(self).wf(),
            old(self).spec_resolve_nick(nick@) is None ==> *final(self) == *old(self),
            old(self).spec_resolve_nick(nick@) matches Some(av) ==> (*final(self) == (InspLink {
                wa_outbox: final(self).wa_outbox,
                ..*old(self)
            }) && final(self)@.wa_outbox == old(self)@.wa_outbox.push(
                WhatsappCommandView::SubscribePresence(av),
            )),
    {
        match self.resolve_nick(nick) {
            Some(a) => {
                let ghost av = a@;
                self.wa_outbox.push(WhatsappCommand::SubscribePresence(a));
                proof {
                    assert(final(self)@.wa_outbox =~= old(self)@.wa_outbox.push(
                        WhatsappCommandView::SubscribePresence(av),
                    ));
                }
            },
            None => {},
        }
    }

    /// Replaces the wire user stored under a UUID, or records a new one.
    pub fn put_user(&mut self, uuid: String, user: InspUser)
        ensures
            *final(self) == (InspLink { users: final(self).users, ..*old(self) }),
            final(self)@.users == (if exists|i: int|
                0 <= i < old(self)@.users.len() && (#[trigger] old(self)@.users[i]).0 == uuid@ {
                old(self)@.users.update(
                    choose|i: int|
                        0 <= i < old(self)@.users.len() && (#[trigger] old(self)@.users[i]).0
                            == uuid@ && forall|j: int|
                            0 <= j < i ==> (#[trigger] old(self)@.users[j]).0 != uuid@,
                    (uuid@, user@),
                )
            } else {
                old(self)@.users.push((uuid@, user@))
            }),
            final(self).spec_has_user(uuid@),
            final(self)@.users.len() >= old(self)@.users.len(),
            forall|k: int|
                0 <= k < old(self)@.users.len() ==> (#[trigger] final(self)@.users[k]).0
                    == old(self)@.users[k].0,
    {
        let cnt = self.users.len();
        let mut i: usize = 0;
        while i < cnt
            invariant
                cnt == self.users@.len(),
                i <= cnt,
                *self == *old(self),
                forall|j: int| 0 <= j < i ==> (#[trigger] self@.users[j]).0 != uuid@,
            decreases cnt - i,
        {
            if util::string_eq(&self.users[i].0, uuid.as_str()) {
                let ghost before = self@.users;
                proof {
                    assert(self@.users[i as int].0 == uuid@);
                }
                self.users.set(i, (uuid, user));
                proof {
                    assert(self@.users =~= before.update(
                        i as int,
                        (self.users@[i as int].0@, self.users@[i as int].1@),
                    ));
                    let w = choose|w: int|
                        0 <= w < old(self)@.users.len() && (#[trigger] old(self)@.users[w]).0
                            == before[i as int].0 && forall|j: int|
                            0 <= j < w ==> (#[trigger] old(self)@.users[j]).0 != before[i as int].0;
                    assert(w == i as int) by {
                        if w < i as int {
                            assert(old(self)@.users[w].0 != before[i as int].0);
                        } else if w > i as int {
                            assert(old(self)@.users[i as int].0 != before[i as int].0);
                        }
                    }
                    assert(self@.users[i as int].0 == before[i as int].0);
                }
                return;
            }
            i = i + 1;
        }
        let ghost uv = uuid@;
        let ghost userv = user@;
        self.users.push((uuid, user));
        proof {
            assert(self@.users =~= old(self)@.users.push((uv, userv)));
            assert(self@.users.last().0 == uv);
        }
    }

    /// Switches a live ghost between WhatsApp and SMS: flips its mode,
    /// records the mode on the recipient row, and moves the ghost to the
    /// matching displayed host on the wire.
    pub fn set_wa_state(&mut self, addr: &PduAddr, wa_state: bool) -> (r: Result<(), String>)
        requires
            old(self).wf(),
            old(self).spec_contact_for(addr@) is Some,
        ensures
            final(self).wf(),
            r is Ok,
            final(self)@.state == old(self)@.state,
            final(self).cfg == old(self).cfg,
            final(self)@.wa_outbox == old(self)@.wa_outbox,
            final(self)@.m_outbox == old(self)@.m_outbox,
            final(self)@.cf_outbox == old(self)@.cf_outbox,
            final(self)@.cb_outbox == old(self)@.cb_outbox,
            final(self).spec_contact_for(addr@) matches Some(ct) && ct.wa_mode == wa_state
                && ct.uuid == old(self).spec_contact_for(addr@).unwrap().uuid,
            final(self)@.contacts.len() == old(self)@.contacts.len(),
            forall|c: int|
                0 <= c < final(self)@.contacts.len() ==> (#[trigger] final(self)@.contacts[c]).0
                    == old(self)@.contacts[c].0,
            final(self)@.store == (StoreView {
                recipients: old(self)@.store.recipients.map_values(
                    |x: RecipientView|
                        if x.phone_number == spec_normalize(addr@) {
                            RecipientView { whatsapp: wa_state, ..x }
                        } else {
                            x
                        },
                ),
                ..old(self)@.store
            }),
            final(self)@.outbox == old(self)@.outbox.push(
                spec_line(
                    Some(old(self).spec_contact_for(addr@).unwrap().uuid),
                    "FHOST"@,
                    seq![
                        if wa_state {
                            "wa."@ + old(self).cfg.server_name@
                        } else {
                            "s."@ + old(self).cfg.server_name@
                        },
                    ],
                    None,
                ),
            ),
            final(self)@.users.len() == old(self)@.users.len(),
            forall|k: int|
                0 <= k < old(self)@.users.len() ==> #[trigger] final(self)@.users[k] == ({
                    let u = old(self).spec_contact_for(addr@).unwrap().uuid;
                    let h = if wa_state {
                        "wa."@ + old(self).cfg.server_name@
                    } else {
                        "s."@ + old(self).cfg.server_name@
                    };
                    if old(self)@.users[k].0 == u {
                        (
                            old(self)@.users[k].0,
                            InspUserView { displayed_hostname: h, ..old(self)@.users[k].1 },
                        )
                    } else {
                        old(self)@.users[k]
                    }
                }),
    {
        let idx = match self.find_contact_index(addr) {
            Some(i) => i,
            None => {
                proof {
                    assert(false);
                }
                return Err(String::new());
            },
        };
        let uid = self.contacts[idx].1.uuid.clone();
        let chans = clone_string_vec(&self.contacts[idx].1.channels);
        let a2 = clone_addr(&self.contacts[idx].0);
        let ghost cv_before = self@.contacts;
        self.contacts.set(idx, (a2, InspContact { uuid: uid.clone(), channels: chans, wa_mode: wa_state }));
        proof {
            assert(self@.contacts =~= cv_before.update(
                idx as int,
                (old(self)@.contacts[idx as int].0, self.contacts@[idx as int].1@),
            ));
            assert forall|i: int, j: int|
                0 <= i < j < self@.contacts.len() implies (#[trigger] self@.contacts[i]).0 != (
            #[trigger] self@.contacts[j]).0 by {
                assert(self@.contacts[i].0 == old(self)@.contacts[i].0);
                assert(self@.contacts[j].0 == old(self)@.contacts[j].0);
            }
        }
        self.store.update_recipient_wa(addr, wa_state);
        proof {
            assert(self@.contacts =~= old(self)@.contacts.update(
                idx as int,
                (old(self)@.contacts[idx as int].0, self.contacts@[idx as int].1@),
            ));
            assert(self.wf());
        }
        let host = self.host_for_wa(wa_state);
        let line = line1(Some(uid.clone()), "FHOST", host.clone(), None);
        self.send(line);
        proof {
            assert(uid@ == old(self)@.contacts[idx as int].1.uuid);
            assert(self@.outbox =~= old(self)@.outbox.push(
                spec_line(
                    Some(old(self).spec_contact_for(addr@).unwrap().uuid),
                    "FHOST"@,
                    seq![
                        if wa_state {
                            "wa."@ + old(self).cfg.server_name@
                        } else {
                            "s."@ + old(self).cfg.server_name@
                        },
                    ],
                    None,
                ),
            ));
        }
        self.update_user_host(&uid, &host);
        proof {
            lemma_lookup_contact(self@.contacts, addr@);
            lemma_lookup_contact(old(self)@.contacts, addr@);
            match lookup_contact(self@.contacts, addr@) {
                Some(ct) => {
                    let w = choose|w: int|
                        0 <= w < self@.contacts.len() && (#[trigger] self@.contacts[w]).0 == addr@
                            && self@.contacts[w].1 == ct && forall|v: int|
                            0 <= v < w ==> (#[trigger] self@.contacts[v]).0 != addr@;
                    assert(w == idx as int) by {
                        if w != idx as int {
                            assert(self@.contacts[w].0 == old(self)@.contacts[w].0);
                            assert(self@.contacts[idx as int].0 == addr@);
                        }
                    }
                },
                None => {
                    assert(self@.contacts[idx as int].0 == addr@);
                    assert(false);
                },
            }
        }
        Ok(())
    }

    /// Moves every wire user with this UUID to a new displayed host.
    fn update_user_host(&mut self, uuid: &String, host: &String)
        ensures
            *final(self) == (InspLink { users: final(self).users, ..*old(self) }),
            final(self)@.users == old(self)@.users.map_values(
                |q: (Seq<char>, InspUserView)|
                    if q.0 == uuid@ {
                        (q.0, InspUserView { displayed_hostname: host@, ..q.1 })
                    } else {
                        q
                    },
            ),
    {
        let ghost f = |q: (Seq<char>, InspUserView)|
            if q.0 == uuid@ {
                (q.0, InspUserView { displayed_hostname: host@, ..q.1 })
            } else {
                q
            };
        let cnt = self.users.len();
        let mut i: usize = 0;
        while i < cnt
            invariant
                cnt == self.users@.len(),
                i <= cnt,
                f == (|q: (Seq<char>, InspUserView)|
                    if q.0 == uuid@ {
                        (q.0, InspUserView { displayed_hostname: host@, ..q.1 })
                    } else {
                        q
                    }),
                self@.users.len() == old(self)@.users.len(),
                *self == (InspLink { users: self.users, ..*old(self) }),
                forall|j: int| 0 <= j < i ==> self@.users[j] == f(#[trigger] old(self)@.users[j]),
                forall|j: int| i <= j < cnt ==> self@.users[j] == #[trigger] old(self)@.users[j],
            decreases cnt - i,
        {
            if util::string_eq(&self.users[i].0, uuid.as_str()) {
                let u0 = self.users[i].0.clone();
                let mut u1 = self.users[i].1.duplicate();
                u1.displayed_hostname = host.clone();
                let ghost before = self@.users;
                proof {
                    assert(before[i as int].0 == uuid@);
                }
                self.users.set(i, (u0, u1));
                proof {
                    assert(self@.users =~= before.update(
                        i as int,
                        f(old(self)@.users[i as int]),
                    ));
                }
            }
            i = i + 1;
        }
        proof {
            assert(self@.users =~= old(self)@.users.map_values(f));
        }
    }

    /// Renames every wire user with this UUID.
    fn update_user_nick(&mut self, uuid: &String, nick: &String)
        ensures
            *final(self) == (InspLink { users: final(self).users, ..*old(self) }),
            final(self)@.users == old(self)@.users.map_values(
                |q: (Seq<char>, InspUserView)|
                    if q.0 == uuid@ {
                        (q.0, InspUserView { nick: nick@, ..q.1 })
                    } else {
                        q
                    },
            ),
    {
        let ghost f = |q: (Seq<char>, InspUserView)|
            if q.0 == uuid@ {
                (q.0, InspUserView { nick: nick@, ..q.1 })
            } else {
                q
            };
        let cnt = self.users.len();
        let mut i: usize = 0;
        while i < cnt
            invariant
                cnt == self.users@.len(),
                i <= cnt,
                f == (|q: (Seq<char>, InspUserView)|
                    if q.0 == uuid@ {
                        (q.0, InspUserView { nick: nick@, ..q.1 })
                    } else {
                        q
                    }),
                self@.users.len() == old(self)@.users.len(),
                *self == (InspLink { users: self.users, ..*old(self) }),
                forall|j: int| 0 <= j < i ==> self@.users[j] == f(#[trigger] old(self)@.users[j]),
                forall|j: int| i <= j < cnt ==> self@.users[j] == #[trigger] old(self)@.users[j],
            decreases cnt - i,
        {
            if util::string_eq(&self.users[i].0, uuid.as_str()) {
                let u0 = self.users[i].0.clone();
                let mut u1 = self.users[i].1.duplicate();
                u1.nick = nick.clone();
                let ghost before = self@.users;
                proof {
                    assert(before[i as int].0 == uuid@);
                }
                self.users.set(i, (u0, u1));
                proof {
                    assert(self@.users =~= before.update(
                        i as int,
                        f(old(self)@.users[i as int]),
                    ));
                }
            }
            i = i + 1;
        }
        proof {
            assert(self@.users =~= old(self)@.users.map_values(f));
        }
    }

    /// Routes a lifecycle command to the live ghost for an address.  With
    /// no live ghost for the address nothing changes and no error arises.
    pub fn forward_cmd(&mut self, a: &PduAddr, cmd: &ContactManagerCommand, now: i64) -> (r:
        Result<(), String>)
        requires
            old(self).wf(),
        ensures
            final(self).cfg == old(self).cfg,
            final(self).wf(),
            r is Ok,
            final(self)@.state == old(self)@.state,
            old(self)@.outbox.is_prefix_of(final(self)@.outbox),
            old(self).spec_contact_for(a@) is None ==> *final(self) == *old(self),
            cmd@ matches crate::comm::ContactManagerCommandView::UpdateAway(t) ==> (old(self).spec_contact_for(a@) is Some ==> (*final(self) == (InspLink {
                outbox: final(self).outbox,
                ..*old(self)
            }) && final(self)@.outbox == old(self)@.outbox.push(
                spec_line(
                    Some(old(self).spec_contact_for(a@).unwrap().uuid),
                    "AWAY"@,
                    Seq::<Seq<char>>::empty(),
                    t,
                ),
            ))),
            cmd@ matches crate::comm::ContactManagerCommandView::ChangeNick(n, src) ==> (old(self).spec_contact_for(a@) is Some ==> (final(self)@.store == (StoreView {
                recipients: old(self)@.store.recipients.map_values(
                    |x: RecipientView|
                        if x.phone_number == spec_normalize(a@) {
                            RecipientView { nick: n, nicksrc: src, ..x }
                        } else {
                            x
                        },
                ),
                ..old(self)@.store
            }) && final(self)@.outbox == old(self)@.outbox.push(
                spec_line(
                    Some(old(self).spec_contact_for(a@).unwrap().uuid),
                    "NICK"@,
                    seq![n, util::spec_dec_i64(now)],
                    None,
                ),
            ) && final(self)@.users.len() == old(self)@.users.len() && (forall|k: int|
                0 <= k < old(self)@.users.len() ==> #[trigger] final(self)@.users[k] == (if old(self)@.users[k].0 == old(self).spec_contact_for(a@).unwrap().uuid {
                    (old(self)@.users[k].0, InspUserView { nick: n, ..old(self)@.users[k].1 })
                } else {
                    old(self)@.users[k]
                })))),
            cmd@ matches crate::comm::ContactManagerCommandView::SetWhatsapp(wam) ==> (old(self).spec_contact_for(a@) is Some ==> (final(self)@.store == (StoreView {
                recipients: old(self)@.store.recipients.map_values(
                    |x: RecipientView|
                        if x.phone_number == spec_normalize(a@) {
                            RecipientView { whatsapp: wam, ..x }
                        } else {
                            x
                        },
                ),
                ..old(self)@.store
            }) && (final(self).spec_contact_for(a@) matches Some(ct2) && ct2.wa_mode == wam
                && ct2.uuid == old(self).spec_contact_for(a@).unwrap().uuid) && final(self)@.outbox == old(self)@.outbox.push(
                spec_line(
                    Some(old(self).spec_contact_for(a@).unwrap().uuid),
                    "FHOST"@,
                    seq![
                        if wam {
                            "wa."@ + old(self).cfg.server_name@
                        } else {
                            "s."@ + old(self).cfg.server_name@
                        },
                    ],
                    None,
                ),
            ))),
            (cmd@ == crate::comm::ContactManagerCommandView::ProcessMessages || cmd@
                == crate::comm::ContactManagerCommandView::ProcessGroups) ==> *final(self) == *old(self),
    {
        let idx = match self.find_contact_index(a) {
            Some(i) => i,
            None => {
                return Ok(());
            },
        };
        match cmd {
            ContactManagerCommand::UpdateAway(text) => {
                let uu = self.contacts[idx].1.uuid.clone();
                let line = line0(Some(uu), "AWAY", crate::models::clone_opt_string(text));
                self.send(line);
                proof {
                    assert(final(self)@.outbox =~= old(self)@.outbox.push(
                        spec_line(
                            Some(old(self).spec_contact_for(a@).unwrap().uuid),
                            "AWAY"@,
                            Seq::<Seq<char>>::empty(),
                            view_opt_string(*text),
                        ),
                    ));
                }
                Ok(())
            },
            ContactManagerCommand::ChangeNick(st, src) => {
                let uu = self.contacts[idx].1.uuid.clone();
                self.update_user_nick(&uu, st);
                let line = line2(Some(uu), "NICK", st.clone(), util::dec_i64(now), None);
                self.send(line);
                proof {
                    assert(self@.outbox =~= old(self)@.outbox.push(
                        spec_line(
                            Some(old(self).spec_contact_for(a@).unwrap().uuid),
                            "NICK"@,
                            seq![st@, util::spec_dec_i64(now)],
                            None,
                        ),
                    ));
                    assert(self@.contacts =~= old(self)@.contacts);
                    assert(self.wf());
                }
                self.store.update_recipient_nick(a, st.as_str(), *src);
                proof {
                    assert(self@.contacts =~= old(self)@.contacts);
                    assert(self.wf());
                }
                Ok(())
            },
            ContactManagerCommand::SetWhatsapp(wam) => {
                let a2 = clone_addr(a);
                self.set_wa_state(&a2, *wam)
            },
            _ => Ok(()),
        }
    }

    /// Routes a lifecycle command to the ghost a nick resolves to.  An
    /// unknown nick changes nothing and is no error.
    pub fn forward_cmd_by_nick(&mut self, nick: &str, cmd: &ContactManagerCommand, now: i64) -> (r:
        Result<(), String>)
        requires
            old(self).wf(),
        ensures
            final(self)@.state == old(self)@.state,
            final(self).cfg == old(self).cfg,
            final(self).wf(),
            r is Ok,
            old(self).spec_resolve_nick(nick@) is None ==> *final(self) == *old(self),
            old(self).spec_resolve_nick(nick@) matches Some(av) ==> ({
                &&& (old(self).spec_contact_for(av) is None ==> *final(self) == *old(self))
                &&& (cmd@ matches crate::comm::ContactManagerCommandView::UpdateAway(t) ==> (old(self).spec_contact_for(av) is Some ==> (*final(self) == (InspLink {
                    outbox: final(self).outbox,
                    ..*old(self)
                }) && final(self)@.outbox == old(self)@.outbox.push(
                    spec_line(
                        Some(old(self).spec_contact_for(av).unwrap().uuid),
                        "AWAY"@,
                        Seq::<Seq<char>>::empty(),
                        t,
                    ),
                ))))
                &&& (cmd@ matches crate::comm::ContactManagerCommandView::ChangeNick(n, src) ==> (old(self).spec_contact_for(av) is Some ==> (final(self)@.store == (StoreView {
                    recipients: old(self)@.store.recipients.map_values(
                        |x: RecipientView|
                            if x.phone_number == spec_normalize(av) {
                                RecipientView { nick: n, nicksrc: src, ..x }
                            } else {
                                x
                            },
                    ),
                    ..old(self)@.store
                }) && final(self)@.outbox == old(self)@.outbox.push(
                    spec_line(
                        Some(old(self).spec_contact_for(av).unwrap().uuid),
                        "NICK"@,
                        seq![n, util::spec_dec_i64(now)],
                        None,
                    ),
                ))))
                &&& (cmd@ matches crate::comm::ContactManagerCommandView::SetWhatsapp(wam) ==> (old(self).spec_contact_for(av) is Some ==> (final(self)@.store == (StoreView {
                    recipients: old(self)@.store.recipients.map_values(
                        |x: RecipientView|
                            if x.phone_number == spec_normalize(av) {
                                RecipientView { whatsapp: wam, ..x }
                            } else {
                                x
                            },
                    ),
                    ..old(self)@.store
                }) && (final(self).spec_contact_for(av) matches Some(ct2) && ct2.wa_mode == wam)
                    && final(self)@.outbox == old(self)@.outbox.push(
                    spec_line(
                        Some(old(self).spec_contact_for(av).unwrap().uuid),
                        "FHOST"@,
                        seq![
                            if wam {
                                "wa."@ + old(self).cfg.server_name@
                            } else {
                                "s."@ + old(self).cfg.server_name@
                            },
                        ],
                        None,
                    ),
                ))))
                &&& ((cmd@ == crate::comm::ContactManagerCommandView::ProcessMessages || cmd@
                    == crate::comm::ContactManagerCommandView::ProcessGroups) ==> *final(self)
                    == *old(self))
            }),
    {
        match self.resolve_nick(nick) {
            Some(a) => self.forward_cmd(&a, cmd, now),
            None => Ok(()),
        }
    }

    /// Removes the wire user behind a UUID; a ghost's user also loses its
    /// registry entry, and is recreated at once when its recipient row
    /// still exists and recreation was asked for.
    pub fn remove_user(&mut self, uuid: &String, recreate: bool, now: i64) -> (r: Result<
        (),
        String,
    >)
        requires
            old(self).wf(),
        ensures
            final(self).cfg == old(self).cfg,
            final(self).wf(),
            final(self)@.state == old(self)@.state,
            lookup_contact_by_uuid(old(self)@.contacts, uuid@) is None ==> (r is Ok && final(self)@.users == old(self)@.users.filter(
                |q: (Seq<char>, InspUserView)| q.0 != uuid@,
            ) && final(self)@.contacts == old(self)@.contacts && final(self)@.store == old(self)@.store && final(self)@.outbox == old(self)@.outbox),
            lookup_contact_by_uuid(old(self)@.contacts, uuid@) matches Some(av) ==> ({
                &&& (!recreate ==> (r is Ok && final(self)@.users == old(self)@.users.filter(
                    |q: (Seq<char>, InspUserView)| q.0 != uuid@,
                ) && final(self)@.contacts == old(self)@.contacts.filter(
                    |q: (AddrView, InspContactView)| q.0 != av,
                ) && final(self)@.store == old(self)@.store))
                &&& (recreate ==> ({
                    &&& (old(self).store.spec_recipient_by_phone(spec_normalize(av)) is None
                        ==> (r is Ok && final(self)@.users == old(self)@.users.filter(
                        |q: (Seq<char>, InspUserView)| q.0 != uuid@,
                    ) && final(self)@.contacts == old(self)@.contacts.filter(
                        |q: (AddrView, InspContactView)| q.0 != av,
                    )))
                    &&& (old(self).store.spec_recipient_by_phone(spec_normalize(av)) matches Some(
                        rec,
                    ) ==> (r is Ok ==> (spec_un_normalize(rec.phone_number) matches Some(av2)
                        ==> final(self).spec_contact_for(av2) is Some)))
                }))
            }),
    {
        let addr: Option<PduAddr> = match self.find_contact_by_uuid(uuid) {
            Some(ci) => Some(clone_addr(&self.contacts[ci].0)),
            None => None,
        };
        match &addr {
            Some(a) => {
                proof {
                    assert(a@ == lookup_contact_by_uuid(old(self)@.contacts, uuid@).unwrap());
                }
                self.remove_contact_for(a);
                proof {
                    let avv = lookup_contact_by_uuid(old(self)@.contacts, uuid@).unwrap();
                    assert(a@ == avv);
                    crate::store::lemma_filter_ptwise(
                        old(self)@.contacts,
                        |q: (AddrView, InspContactView)| q.0 != a@,
                        |q: (AddrView, InspContactView)| q.0 != avv,
                    );
                    assert(self@.contacts == old(self)@.contacts.filter(
                        |q: (AddrView, InspContactView)| q.0 != avv,
                    ));
                }
            },
            None => {},
        }
        // drop the wire user itself
        let ghost uv = self@.users;
        let cnt = self.users.len();
        let mut kept: Vec<(String, InspUser)> = Vec::new();
        let mut i: usize = 0;
        proof {
            reveal(Seq::filter);
        }
        while i < cnt
            invariant
                cnt == self.users@.len(),
                i <= cnt,
                uv == self@.users,
                uviews(kept@) == uv.subrange(0, i as int).filter(
                    |q: (Seq<char>, InspUserView)| q.0 != uuid@,
                ),
            decreases cnt - i,
        {
            proof {
                reveal(Seq::filter);
                assert(uv.subrange(0, i + 1).drop_last() == uv.subrange(0, i as int));
                assert(uv.subrange(0, i + 1).last() == uv[i as int]);
            }
            if !util::string_eq(&self.users[i].0, uuid.as_str()) {
                let u0 = self.users[i].0.clone();
                let u1 = self.users[i].1.duplicate();
                proof {
                    assert((u0@, u1@) =~= uv[i as int]);
                }
                kept.push((u0, u1));
            }
            i = i + 1;
            proof {
                assert(uviews(kept@) =~= uv.subrange(0, i as int).filter(
                    |q: (Seq<char>, InspUserView)| q.0 != uuid@,
                ));
            }
        }
        proof {
            assert(uv.subrange(0, cnt as int) == uv);
        }
        let ghost mid = *self;
        self.users = kept;
        proof {
            assert(self@.contacts =~= mid@.contacts);
            assert(self.store == mid.store);
            assert(self.wf());
            assert(uv =~= old(self)@.users);
        }
        match addr {
            Some(a) => {
                if recreate {
                    self.setup_contact(&a, now)
                } else {
                    Ok(())
                }
            },
            None => Ok(()),
        }
    }

    /// Where a private delivery goes: the admin's UUID, or the log channel
    /// when the admin is not connected.
    pub open spec fn spec_private_target(&self) -> Seq<char> {
        match self.spec_admin_uuid() {
            Some(u) => u,
            None => self.cfg.log_chan@,
        }
    }

    /// Resolves the private delivery target.
    pub fn private_target(&self) -> (r: String)
        ensures
            r@ == self.spec_private_target(),
    {
        match self.admin_uuid() {
            Some(u) => u,
            None => self.cfg.log_chan.clone(),
        }
    }

    /// Whether a wire user with this UUID exists.
    pub open spec fn spec_has_user(&self, uuid: Seq<char>) -> bool {
        exists|i: int| 0 <= i < self@.users.len() && (#[trigger] self@.users[i]).0 == uuid
    }

    /// Sends one message line from a ghost the bridge owns.  Fails when the
    /// UUID is unknown or not one of the bridge's own.
    pub fn contact_message(&mut self, uid: &String, kind: &str, target: &String, message: &String) -> (r:
        Result<(), String>)
        requires
            old(self).wf(),
        ensures
            final(self).wf(),
            *final(self) == (InspLink { outbox: final(self).outbox, ..*old(self) }),
            r is Ok <==> (old(self).spec_has_user(uid@) && old(self).cfg.sid@.is_prefix_of(uid@)),
            r is Ok ==> final(self)@.outbox == old(self)@.outbox.push(
                spec_line(Some(uid@), kind@, seq![target@], Some(message@)),
            ),
            r is Err ==> final(self)@.outbox == old(self)@.outbox,
    {
        match self.find_user_index(uid.as_str()) {
            Some(_) => {},
            None => {
                return Err(String::from_str("unknown uid for contact message"));
            },
        }
        if !util::str_starts_with(uid.as_str(), self.cfg.sid.as_str()) {
            return Err(String::from_str("uid not owned by this bridge"));
        }
        let line = line1(Some(uid.clone()), kind, target.clone(), Some(message.clone()));
        self.send(line);
        proof {
            assert(self@.contacts =~= old(self)@.contacts);
            assert(self.wf());
        }
        Ok(())
    }

    /// Reports a per-message failure inline to the admin, from the ghost
    /// the message came through.
    pub fn report_error(&mut self, uid: &String, err: String) -> (r: Result<(), String>)
        requires
            old(self).wf(),
        ensures
            final(self).wf(),
            *final(self) == (InspLink { outbox: final(self).outbox, ..*old(self) }),
            old(self)@.outbox.is_prefix_of(final(self)@.outbox),
            r is Ok <==> (old(self).spec_has_user(uid@) && old(self).cfg.sid@.is_prefix_of(uid@)),
            r is Ok ==> final(self)@.outbox == old(self)@.outbox.push(
                spec_line(Some(uid@), "NOTICE"@, seq![old(self).cfg.admin_nick@], Some(err@)),
            ),
            r is Err ==> final(self)@.outbox == old(self)@.outbox,
    {
        let admin = self.cfg.admin_nick.clone();
        let res = self.contact_message(uid, "NOTICE", &admin, &err);
        proof {
            assert(self@.outbox.subrange(0, old(self)@.outbox.len() as int) =~= old(self)@.outbox);
        }
        res
    }

    /// Force-joins the admin to a channel ahead of a group delivery, when
    /// that behaviour is configured and the admin is connected.
    pub fn ensure_joined(&mut self, ch: &String)
        ensures
            *final(self) == (InspLink { outbox: final(self).outbox, ..*old(self) }),
            (old(self).cfg.ensure_joined && old(self).spec_admin_uuid() is Some) ==> final(self)@.outbox == old(self)@.outbox.push(
                spec_line(
                    Some(old(self).cfg.sid@),
                    "SVSJOIN"@,
                    seq![old(self).spec_admin_uuid().unwrap(), ch@],
                    None,
                ),
            ),
            !(old(self).cfg.ensure_joined && old(self).spec_admin_uuid() is Some) ==> final(self)@.outbox == old(self)@.outbox,
    {
        if !self.cfg.ensure_joined {
            return;
        }
        match self.admin_uuid() {
            Some(admu) => {
                let line = line2(Some(self.cfg.sid.clone()), "SVSJOIN", admu, ch.clone(), None);
                self.send(line);
            },
            None => {},
        }
    }

    /// Sends one already-sized message fragment from a ghost.
    pub fn send_irc_message(&mut self, uid: &String, to: &String, msg: &String) -> (r: Result<
        (),
        String,
    >)
        requires
            old(self).wf(),
        ensures
            final(self).wf(),
            *final(self) == (InspLink { outbox: final(self).outbox, ..*old(self) }),
            r is Ok <==> (old(self).spec_has_user(uid@) && old(self).cfg.sid@.is_prefix_of(uid@)),
            r is Ok ==> final(self)@.outbox == old(self)@.outbox.push(
                spec_line(Some(uid@), "PRIVMSG"@, seq![to@], Some(msg@)),
            ),
            r is Err ==> final(self)@.outbox == old(self)@.outbox,
    {
        self.contact_message(uid, "PRIVMSG", to, msg)
    }

    /// Delivers a text from a ghost: the text splits at line breaks and
    /// into wire-sized fragments, and every fragment goes to the group's
    /// channel when a group target is given, else to the admin's private
    /// target.
    pub fn send_raw_message(&mut self, uid: &String, msg: &str, group_target: Option<i32>) -> (r:
        Result<(), String>)
        requires
            old(self).wf(),
        ensures
            final(self).wf(),
            *final(self) == (InspLink { outbox: final(self).outbox, ..*old(self) }),
            old(self)@.outbox.is_prefix_of(final(self)@.outbox),
            group_target matches Some(g) ==> (old(self).store.spec_group_by_id(g) is None ==> (r
                is Err && final(self)@.outbox == old(self)@.outbox)),
            group_target matches Some(g) ==> (old(self).store.spec_group_by_id(g) matches Some(
                grp,
            ) ==> ({
                let frags = crate::sender::spec_fragments(msg@);
                let joins: Seq<LineView> = if old(self).cfg.ensure_joined && old(self).spec_admin_uuid() is Some {
                    seq![
                        spec_line(
                            Some(old(self).cfg.sid@),
                            "SVSJOIN"@,
                            seq![old(self).spec_admin_uuid().unwrap(), grp.channel],
                            None,
                        ),
                    ]
                } else {
                    Seq::<LineView>::empty()
                };
                &&& ((old(self).spec_has_user(uid@) && old(self).cfg.sid@.is_prefix_of(uid@))
                    ==> (r is Ok && final(self)@.outbox.len() == old(self)@.outbox.len()
                    + joins.len() + frags.len() && (forall|k: int|
                    0 <= k < joins.len() ==> final(self)@.outbox[old(self)@.outbox.len() + k]
                        == #[trigger] joins[k]) && (forall|k: int|
                    0 <= k < frags.len() ==> final(self)@.outbox[old(self)@.outbox.len()
                        + joins.len() + k] == spec_line(
                        Some(uid@),
                        "PRIVMSG"@,
                        seq![grp.channel],
                        Some(#[trigger] frags[k]),
                    ))))
                &&& (!(old(self).spec_has_user(uid@) && old(self).cfg.sid@.is_prefix_of(uid@))
                    ==> (final(self)@.outbox == old(self)@.outbox + joins && (r is Ok <==> frags.len() == 0)))
            })),
            group_target is None ==> ({
                let frags = crate::sender::spec_fragments(msg@);
                let dest = old(self).spec_private_target();
                &&& (old(self).spec_has_user(uid@) && old(self).cfg.sid@.is_prefix_of(uid@)) ==> (r
                    is Ok && final(self)@.outbox.len() == old(self)@.outbox.len() + frags.len()
                    && (forall|k: int|
                    0 <= k < frags.len() ==> final(self)@.outbox[old(self)@.outbox.len() + k]
                        == spec_line(Some(uid@), "PRIVMSG"@, seq![dest], Some(#[trigger] frags[k]))))
                &&& !(old(self).spec_has_user(uid@) && old(self).cfg.sid@.is_prefix_of(uid@))
                    ==> (final(self)@.outbox == old(self)@.outbox && (r is Ok <==> frags.len()
                    == 0))
            }),
    {
        let ghost mut joins: Seq<LineView> = Seq::<LineView>::empty();
        let dest: String = match group_target {
            Some(g) => {
                match self.store.get_group_by_id(g) {
                    Some(grp) => {
                        self.ensure_joined(&grp.channel);
                        proof {
                            assert(old(self)@.outbox.is_prefix_of(self@.outbox)) by {
                                assert(self@.outbox.subrange(0, old(self)@.outbox.len() as int)
                                    =~= old(self)@.outbox);
                            }
                            joins = if old(self).cfg.ensure_joined && old(self).spec_admin_uuid() is Some {
                                seq![
                                    spec_line(
                                        Some(old(self).cfg.sid@),
                                        "SVSJOIN"@,
                                        seq![old(self).spec_admin_uuid().unwrap(), grp@.channel],
                                        None,
                                    ),
                                ]
                            } else {
                                Seq::<LineView>::empty()
                            };
                            assert(self@.outbox =~= old(self)@.outbox + joins);
                        }
                        grp.channel
                    },
                    None => {
                        proof {
                            assert(self@.outbox.subrange(0, old(self)@.outbox.len() as int)
                                =~= old(self)@.outbox);
                        }
                        return Err(String::from_str("no group row for delivery target"));
                    },
                }
            },
            None => self.private_target(),
        };
        let frags = crate::sender::split_message(msg);
        let ghost fragsv = frags@.map_values(|f: String| f@);
        let ghost base = self@.outbox;
        let ghost destv = dest@;
        proof {
            assert(base.is_prefix_of(self@.outbox)) by {
                assert(self@.outbox.subrange(0, base.len() as int) =~= self@.outbox);
            }
            assert(old(self)@.outbox.is_prefix_of(base)) by {
                assert(base.subrange(0, old(self)@.outbox.len() as int) =~= old(self)@.outbox);
            }
            if group_target is None {
                assert(base =~= old(self)@.outbox + joins);
            } else {
                assert(base =~= old(self)@.outbox + joins);
            }
            assert(self@.contacts =~= old(self)@.contacts);
            assert(self.wf());
        }
        let fcnt = frags.len();
        let mut fi: usize = 0;
        while fi < fcnt
            invariant
                old(self).wf(),
                self.wf(),
                fcnt == frags@.len(),
                fi <= fcnt,
                fragsv == frags@.map_values(|f: String| f@),
                destv == dest@,
                *self == (InspLink { outbox: self.outbox, ..*old(self) }),
                fi > 0 ==> (old(self).spec_has_user(uid@) && old(self).cfg.sid@.is_prefix_of(
                    uid@,
                )),
                old(self)@.outbox.is_prefix_of(base),
                base == old(self)@.outbox + joins,
                group_target matches Some(g) ==> (old(self).store.spec_group_by_id(g) matches Some(grp) && destv == grp.channel && joins == (
                    if old(self).cfg.ensure_joined && old(self).spec_admin_uuid() is Some {
                        seq![
                            spec_line(
                                Some(old(self).cfg.sid@),
                                "SVSJOIN"@,
                                seq![old(self).spec_admin_uuid().unwrap(), grp.channel],
                                None,
                            ),
                        ]
                    } else {
                        Seq::<LineView>::empty()
                    })),
                group_target is None ==> (base == old(self)@.outbox && joins
                    == Seq::<LineView>::empty()),
                fragsv == crate::sender::spec_fragments(msg@),
                self@.outbox.len() == base.len() + fi,
                forall|k: int|
                    0 <= k < fi ==> self@.outbox[base.len() + k] == spec_line(
                        Some(uid@),
                        "PRIVMSG"@,
                        seq![destv],
                        Some(#[trigger] fragsv[k]),
                    ),
                forall|k: int| 0 <= k < base.len() ==> self@.outbox[k] == #[trigger] base[k],
            decreases fcnt - fi,
        {
            let frag = frags[fi].clone();
            match self.contact_message(uid, "PRIVMSG", &dest, &frag) {
                Ok(()) => {},
                Err(e) => {
                    proof {
                        assert(old(self)@.outbox.is_prefix_of(self@.outbox)) by {
                            assert(self@.outbox.subrange(0, old(self)@.outbox.len() as int)
                                =~= old(self)@.outbox);
                        }
                        // only the first fragment can fail, so nothing was sent
                        assert(!(old(self).spec_has_user(uid@) && old(self).cfg.sid@.is_prefix_of(uid@))) by {
                            if old(self).spec_has_user(uid@) {
                                let w = choose|w: int|
                                    0 <= w < old(self)@.users.len() && (#[trigger] old(self)@.users[w]).0 == uid@;
                                assert(self@.users[w].0 == uid@);
                                assert(self.spec_has_user(uid@));
                            }
                        }
                        assert(fi == 0);
                        assert(self@.outbox =~= base);
                        assert(self@.outbox =~= old(self)@.outbox + joins);
                    }
                    return Err(e);
                },
            }
            fi = fi + 1;
        }
        proof {
            assert(base.is_prefix_of(self@.outbox)) by {
                assert(self@.outbox.subrange(0, base.len() as int) =~= base);
            }
            assert(old(self)@.outbox.is_prefix_of(self@.outbox)) by {
                assert(self@.outbox.subrange(0, old(self)@.outbox.len() as int) =~= old(self)@.outbox);
            }
            if fcnt == 0 {
                assert(self@.outbox =~= base);
            }
            if group_target is Some {
                let g0 = group_target.unwrap();
                let grp0 = old(self).store.spec_group_by_id(g0).unwrap();
                assert(destv == grp0.channel);
                assert forall|k: int| 0 <= k < joins.len() implies self@.outbox[old(self)@.outbox.len() + k] == #[trigger] joins[k] by {
                    assert(self@.outbox[old(self)@.outbox.len() + k] == base[old(self)@.outbox.len() + k]);
                }
                assert forall|k: int|
                    0 <= k < crate::sender::spec_fragments(msg@).len() implies self@.outbox[old(self)@.outbox.len() + joins.len() + k] == spec_line(
                    Some(uid@),
                    "PRIVMSG"@,
                    seq![grp0.channel],
                    Some(#[trigger] crate::sender::spec_fragments(msg@)[k]),
                ) by {
                    assert(self@.outbox[base.len() + k] == spec_line(
                        Some(uid@),
                        "PRIVMSG"@,
                        seq![destv],
                        Some(fragsv[k]),
                    ));
                }
                if fcnt == 0 {
                    assert(self@.outbox =~= old(self)@.outbox + joins);
                }
            }
            if group_target is None {
                assert(base == old(self)@.outbox);
                assert(destv == old(self).spec_private_target());
                assert(fragsv == crate::sender::spec_fragments(msg@));
                assert forall|k: int|
                    0 <= k < crate::sender::spec_fragments(msg@).len() implies self@.outbox[old(self)@.outbox.len() + k] == spec_line(
                    Some(uid@),
                    "PRIVMSG"@,
                    seq![old(self).spec_private_target()],
                    Some(#[trigger] crate::sender::spec_fragments(msg@)[k]),
                ) by {
                    assert(self@.outbox[base.len() + k] == spec_line(
                        Some(uid@),
                        "PRIVMSG"@,
                        seq![destv],
                        Some(fragsv[k]),
                    ));
                }
            }
        }
        Ok(())
    }

    /// Delivers a stored plain-text message and deletes its row.
    pub fn process_msg_plain(&mut self, uid: &String, msg: &Message) -> (r: Result<(), String>)
        requires
            old(self).wf(),
            msg@.text is Some,
        ensures
            final(self).wf(),
            *final(self) == (InspLink {
                outbox: final(self).outbox,
                store: final(self).store,
                ..*old(self)
            }),
            old(self)@.outbox.is_prefix_of(final(self)@.outbox),
            r is Ok ==> final(self)@.store == (StoreView {
                messages: old(self)@.store.messages.filter(|x: MessageView| x.id != msg@.id),
                ..old(self)@.store
            }),
            r is Err ==> final(self)@.store == old(self)@.store,
            msg@.group_target matches Some(g) ==> (old(self).store.spec_group_by_id(g) is None
                ==> (r is Err && final(self)@.outbox == old(self)@.outbox)),
            (msg@.group_target is None && old(self).spec_has_user(uid@) && old(self).cfg.sid@.is_prefix_of(uid@)) ==> ({
                let frags = crate::sender::spec_fragments(msg@.text.unwrap());
                let dest = old(self).spec_private_target();
                &&& (r is Ok <==> exists|i: int|
                    0 <= i < old(self)@.store.messages.len() && (#[trigger] old(self)@.store.messages[i]).id == msg@.id)
                &&& final(self)@.outbox.len() == old(self)@.outbox.len() + frags.len()
                &&& (forall|k: int|
                    0 <= k < frags.len() ==> final(self)@.outbox[old(self)@.outbox.len() + k]
                        == spec_line(Some(uid@), "PRIVMSG"@, seq![dest], Some(#[trigger] frags[k])))
            }),
    {
        let text = match &msg.text {
            Some(t) => t.clone(),
            None => {
                proof {
                    assert(false);
                }
                return Err(String::new());
            },
        };
        match self.send_raw_message(uid, text.as_str(), msg.group_target) {
            Ok(()) => {},
            Err(e) => {
                return Err(e);
            },
        }
        proof {
            assert(self@.contacts =~= old(self)@.contacts);
            assert(self.wf());
        }
        match self.store.delete_message(msg.id) {
            Ok(()) => {
                proof {
                    assert(self@.contacts =~= old(self)@.contacts);
                }
                Ok(())
            },
            Err(e) => {
                proof {
                    assert(self@.contacts =~= old(self)@.contacts);
                    // the row was already gone, so the filter kept every row
                    crate::store::lemma_filter_all_true(
                        old(self)@.store.messages,
                        |x: MessageView| x.id != msg@.id,
                    );
                    assert(self@.store =~= old(self)@.store);
                }
                Err(String::from_str("no message rows deleted"))
            },
        }
    }

    /// Delivers a stored raw-PDU message.  An undecodable PDU is reported
    /// inline and its row kept.  A part of a concatenated message is
    /// delivered only once every part sharing its reference is stored:
    /// fewer parts defer everything untouched; a full set is reassembled
    /// in ascending sequence order and delivered, and every constituent
    /// row is deleted together, only after the delivery.
    #[verifier::rlimit(80)]
    #[verifier::spinoff_prover]
    pub fn process_msg_pdu(&mut self, uid: &String, msg: &Message) -> (r: Result<(), String>)
        requires
            old(self).wf(),
            msg@.pdu is Some,
        ensures
            final(self).wf(),
            *final(self) == (InspLink {
                outbox: final(self).outbox,
                store: final(self).store,
                ..*old(self)
            }),
            old(self)@.outbox.is_prefix_of(final(self)@.outbox),
            r is Err ==> final(self)@.store == old(self)@.store,
            crate::sender::pdu_decode_of(msg@.pdu.unwrap()) is None ==> (r is Ok && final(self)@.store == old(self)@.store && ((old(self).spec_has_user(uid@) && old(self).cfg.sid@.is_prefix_of(uid@)) ==> final(self)@.outbox == old(self)@.outbox.push(
                spec_line(
                    Some(uid@),
                    "NOTICE"@,
                    seq![old(self).cfg.admin_nick@],
                    Some("indecipherable message"@),
                ),
            )) && (!(old(self).spec_has_user(uid@) && old(self).cfg.sid@.is_prefix_of(uid@))
                ==> final(self)@.outbox == old(self)@.outbox)),
            crate::sender::pdu_decode_of(msg@.pdu.unwrap()) matches Some(d) ==> ({
                &&& d.1 is None ==> (r is Ok ==> final(self)@.store == (StoreView {
                    messages: old(self)@.store.messages.filter(
                        |x: MessageView| x.id != msg@.id,
                    ),
                    ..old(self)@.store
                }))
                &&& d.1 matches Some(cd) ==> ({
                    let part_rows = old(self)@.store.messages.filter(
                        |x: MessageView| x.csms_data == Some(cd.reference as i32)
                            && x.phone_number == msg@.phone_number,
                    );
                    &&& part_rows.len() != cd.parts as int ==> (r is Ok && *final(self) == *old(self))
                    &&& (part_rows.len() == cd.parts as int
                        && !crate::sender::spec_all_parts_decode(part_rows)) ==> final(self)@.store == old(self)@.store
                    &&& (part_rows.len() == cd.parts as int
                        && crate::sender::spec_all_parts_decode(part_rows)) ==> (r is Ok
                        ==> final(self)@.store == (StoreView {
                        messages: old(self)@.store.messages.filter(
                            |x: MessageView| !(x.csms_data == Some(cd.reference as i32)
                                && x.phone_number == msg@.phone_number),
                        ),
                        ..old(self)@.store
                    }))
                    &&& ((part_rows.len() == cd.parts as int
                        && crate::sender::spec_all_parts_decode(part_rows) && old(self).spec_has_user(uid@) && old(self).cfg.sid@.is_prefix_of(uid@)) ==> ({
                        let text = crate::sender::spec_reassemble(
                            crate::sender::spec_parts_of(part_rows),
                        );
                        let frags = crate::sender::spec_fragments(text);
                        &&& (msg@.group_target is None ==> (r is Ok && final(self)@.outbox.len()
                            == old(self)@.outbox.len() + frags.len() && (forall|k: int|
                            0 <= k < frags.len() ==> final(self)@.outbox[old(self)@.outbox.len()
                                + k] == spec_line(
                                Some(uid@),
                                "PRIVMSG"@,
                                seq![old(self).spec_private_target()],
                                Some(#[trigger] frags[k]),
                            ))))
                        &&& (msg@.group_target matches Some(g) ==> (old(self).store.spec_group_by_id(g) matches Some(grp) ==> (r is Ok && ({
                            let joins: Seq<LineView> = if old(self).cfg.ensure_joined && old(self).spec_admin_uuid() is Some {
                                seq![
                                    spec_line(
                                        Some(old(self).cfg.sid@),
                                        "SVSJOIN"@,
                                        seq![old(self).spec_admin_uuid().unwrap(), grp.channel],
                                        None,
                                    ),
                                ]
                            } else {
                                Seq::<LineView>::empty()
                            };
                            final(self)@.outbox.len() == old(self)@.outbox.len() + joins.len()
                                + frags.len() && (forall|k: int|
                                0 <= k < frags.len() ==> final(self)@.outbox[old(self)@.outbox.len() + joins.len() + k] == spec_line(
                                    Some(uid@),
                                    "PRIVMSG"@,
                                    seq![grp.channel],
                                    Some(#[trigger] frags[k]),
                                ))
                        }))))
                    }))
                })
            }),
            crate::sender::pdu_decode_of(msg@.pdu.unwrap()) matches Some(d) ==> ((d.1 is None
                && old(self).spec_has_user(uid@) && old(self).cfg.sid@.is_prefix_of(uid@)
                && msg@.group_target is None) ==> ({
                let frags = crate::sender::spec_fragments(d.0);
                &&& (r is Ok <==> exists|i: int|
                    0 <= i < old(self)@.store.messages.len() && (#[trigger] old(self)@.store.messages[i]).id == msg@.id)
                &&& final(self)@.outbox.len() == old(self)@.outbox.len() + frags.len()
                &&& (forall|k: int|
                    0 <= k < frags.len() ==> final(self)@.outbox[old(self)@.outbox.len() + k]
                        == spec_line(
                        Some(uid@),
                        "PRIVMSG"@,
                        seq![old(self).spec_private_target()],
                        Some(#[trigger] frags[k]),
                    ))
            })),
    {
        let pdu = match &msg.pdu {
            Some(p) => p,
            None => {
                proof {
                    assert(false);
                }
                return Err(String::new());
            },
        };
        let decoded = match crate::sender::decode_sms_pdu(pdu) {
            Some(d) => d,
            None => {
                let _report = self.report_error(uid, String::from_str("indecipherable message"));
                return Ok(());
            },
        };
        match decoded.concat {
            None => {
                match self.send_raw_message(uid, decoded.text.as_str(), msg.group_target) {
                    Ok(()) => {},
                    Err(e) => {
                        return Err(e);
                    },
                }
                proof {
                    assert(self@.contacts =~= old(self)@.contacts);
                    assert(self.wf());
                }
                match self.store.delete_message(msg.id) {
                    Ok(()) => {},
                    Err(_) => {
                        proof {
                            assert(self@.contacts =~= old(self)@.contacts);
                            // the row was already gone, so the filter kept every row
                            crate::store::lemma_filter_all_true(
                                old(self)@.store.messages,
                                |x: MessageView| x.id != msg@.id,
                            );
                            assert(self@.store =~= old(self)@.store);
                        }
                        return Err(String::from_str("no message rows deleted"));
                    },
                }
                proof {
                    assert(self@.contacts =~= old(self)@.contacts);
                }
                Ok(())
            },
            Some(cd) => {
                let rf: i32 = cd.reference as i32;
                let rows = self.store.get_all_concatenated(&msg.phone_number, rf);
                let ghost rowsv = crate::store::mviews(rows@);
                if rows.len() != cd.parts as usize {
                    return Ok(());
                }
                // decode every stored part; any failure is reported inline
                // and every row kept for the next poll
                let mut parts: Vec<crate::sender::SmsPart> = Vec::new();
                let rcnt = rows.len();
                let mut ri: usize = 0;
                proof {
                    assert(parts@.map_values(|x: crate::sender::SmsPart| x@)
                        =~= crate::sender::spec_parts_of(rowsv.subrange(0, 0)));
                }
                while ri < rcnt
                    invariant
                        old(self).wf(),
                        self.wf(),
                        rcnt == rows@.len(),
                        ri <= rcnt,
                        rowsv == crate::store::mviews(rows@),
                        rowsv == old(self)@.store.messages.filter(
                            |x: MessageView| x.csms_data == Some(cd.reference as i32)
                                && x.phone_number == msg@.phone_number,
                        ),
                        rcnt == cd.parts as int,
                        msg@.pdu is Some,
                        crate::sender::pdu_decode_of(msg@.pdu.unwrap()) == Some(
                            (decoded.text@, Some(cd)),
                        ),
                        *self == *old(self),
                        parts@.map_values(|x: crate::sender::SmsPart| x@)
                            == crate::sender::spec_parts_of(rowsv.subrange(0, ri as int)),
                        forall|j: int|
                            0 <= j < ri ==> ((#[trigger] rowsv[j]).pdu is Some
                                && crate::sender::pdu_decode_of(rowsv[j].pdu.unwrap()) is Some
                                && crate::sender::pdu_decode_of(
                                rowsv[j].pdu.unwrap(),
                            ).unwrap().1 is Some),
                    decreases rcnt - ri,
                {
                    let row_pdu = match &rows[ri].pdu {
                        Some(p2) => p2,
                        None => {
                            let _report = self.report_error(
                                uid,
                                String::from_str("indecipherable message part"),
                            );
                            proof {
                                assert(rowsv[ri as int].pdu is None);
                                assert(!crate::sender::spec_all_parts_decode(rowsv));
                            }
                            return Ok(());
                        },
                    };
                    let d2 = match crate::sender::decode_sms_pdu(row_pdu) {
                        Some(d2) => d2,
                        None => {
                            let _report = self.report_error(
                                uid,
                                String::from_str("indecipherable message part"),
                            );
                            proof {
                                assert(!crate::sender::spec_all_parts_decode(rowsv));
                            }
                            return Ok(());
                        },
                    };
                    let c2 = match d2.concat {
                        Some(c2) => c2,
                        None => {
                            let _report = self.report_error(
                                uid,
                                String::from_str("message part lost its metadata"),
                            );
                            proof {
                                assert(!crate::sender::spec_all_parts_decode(rowsv));
                            }
                            return Ok(());
                        },
                    };
                    let ghost textv = d2.text@;
                    proof {
                        assert(rowsv[ri as int] == rows@[ri as int]@);
                        assert(rowsv[ri as int].pdu == Some(row_pdu@));
                        assert(crate::sender::pdu_decode_of(rowsv[ri as int].pdu.unwrap())
                            == Some((textv, Some(c2))));
                    }
                    let ghost parts_before = parts@;
                    parts.push(crate::sender::SmsPart { sequence: c2.sequence, text: d2.text });
                    ri = ri + 1;
                    proof {
                        assert(parts_before.map_values(|x: crate::sender::SmsPart| x@).len()
                            == crate::sender::spec_parts_of(rowsv.subrange(0, ri - 1)).len());
                        assert(parts_before.len() == ri - 1);
                        assert(parts@ == parts_before.push(parts@.last()));
                        assert(parts@.last()@ == (crate::sender::SmsPartView {
                            sequence: c2.sequence,
                            text: textv,
                        }));
                        assert(crate::sender::spec_parts_of(rowsv.subrange(0, ri as int))[ri - 1]
                            == (crate::sender::SmsPartView {
                            sequence: c2.sequence,
                            text: textv,
                        }));
                        assert forall|j: int| 0 <= j < parts@.len() implies parts@.map_values(
                            |x: crate::sender::SmsPart| x@,
                        )[j] == crate::sender::spec_parts_of(rowsv.subrange(0, ri as int))[j] by {
                            if j < ri - 1 {
                                assert(parts@[j] == parts_before[j]);
                                assert(parts_before.map_values(|x: crate::sender::SmsPart| x@)[j]
                                    == crate::sender::spec_parts_of(
                                    rowsv.subrange(0, ri - 1),
                                )[j]);
                                assert(rowsv.subrange(0, ri - 1)[j] == rowsv.subrange(
                                    0,
                                    ri as int,
                                )[j]);
                            } else {
                                assert(parts@[j]@ == (crate::sender::SmsPartView {
                                    sequence: c2.sequence,
                                    text: textv,
                                }));
                            }
                        }
                        assert(parts@.map_values(|x: crate::sender::SmsPart| x@)
                            =~= crate::sender::spec_parts_of(rowsv.subrange(0, ri as int)));
                    }
                }
                proof {
                    assert(rowsv.subrange(0, rcnt as int) == rowsv);
                    assert(crate::sender::spec_all_parts_decode(rowsv));
                }
                let text = crate::sender::reassemble_parts(parts);
                match self.send_raw_message(uid, text.as_str(), msg.group_target) {
                    Ok(()) => {},
                    Err(e) => {
                        return Err(e);
                    },
                }
                proof {
                    assert(self@.contacts =~= old(self)@.contacts);
                    assert(self.wf());
                }
                self.store.delete_concatenated(msg.phone_number.as_str(), rf);
                proof {
                    assert(self@.contacts =~= old(self)@.contacts);
                }
                Ok(())
            },
        }
    }

    /// Opens the handshake: the capability advertisement and the SERVER
    /// introduction, in fixed order, and moves the link to ServerSent.
    pub fn do_capab_and_server(&mut self)
        requires
            old(self).wf(),
            old(self)@.state == LinkState::TcpConnected,
        ensures
            final(self).wf(),
            *final(self) == (InspLink {
                outbox: final(self).outbox,
                state: final(self).state,
                ..*old(self)
            }),
            final(self)@.state == LinkState::ServerSent,
            final(self)@.outbox.len() == old(self)@.outbox.len() + 13,
            final(self)@.outbox[old(self)@.outbox.len() as int] == spec_line(
                Some(old(self).cfg.sid@),
                "CAPAB"@,
                seq!["START"@, "1202"@],
                None,
            ),
            forall|k: int|
                1 <= k < 11 ==> #[trigger] final(self)@.outbox[old(self)@.outbox.len() + k]
                    == spec_line(
                    Some(old(self).cfg.sid@),
                    "CAPAB"@,
                    seq!["CAPABILITIES"@],
                    Some(spec_capab_token((k - 1) as nat)),
                ),
            final(self)@.outbox[old(self)@.outbox.len() as int + 11] == spec_line(
                Some(old(self).cfg.sid@),
                "CAPAB"@,
                seq!["END"@],
                None,
            ),
            final(self)@.outbox[old(self)@.outbox.len() as int + 12] == spec_line(
                Some(old(self).cfg.sid@),
                "SERVER"@,
                seq![
                    old(self).cfg.server_name@,
                    old(self).cfg.sendpass@,
                    "0"@,
                    old(self).cfg.sid@,
                ],
                Some(old(self).cfg.server_desc@),
            ),
            old(self)@.outbox.is_prefix_of(final(self)@.outbox),
    {
        let ghost base = self@.outbox;
        let sid = self.cfg.sid.clone();
        self.send(line2(Some(sid.clone()), "CAPAB", String::from_str("START"), String::from_str("1202"), None));
        self.send_capability(&sid, "PROTOCOL=1202");
        self.send_capability(&sid, "NICKMAX=100");
        self.send_capability(&sid, "CHANMAX=100");
        self.send_capability(&sid, "MAXMODES=100");
        self.send_capability(&sid, "IDENTMAX=100");
        self.send_capability(&sid, "MAXQUIT=100");
        self.send_capability(&sid, "MAXTOPIC=100");
        self.send_capability(&sid, "MAXKICK=100");
        self.send_capability(&sid, "MAXGECOS=100");
        self.send_capability(&sid, "MAXAWAY=100");
        self.send(line1(Some(sid.clone()), "CAPAB", String::from_str("END"), None));
        self.send(line4(
            Some(sid.clone()),
            "SERVER",
            self.cfg.server_name.clone(),
            self.cfg.sendpass.clone(),
            String::from_str("0"),
            sid.clone(),
            Some(self.cfg.server_desc.clone()),
        ));
        self.state = LinkState::ServerSent;
        proof {
            assert(self@.contacts =~= old(self)@.contacts);
            assert(self.wf());
            assert(base.is_prefix_of(self@.outbox)) by {
                assert(self@.outbox.subrange(0, base.len() as int) =~= base);
            }
            assert forall|k: int| 1 <= k < 11 implies #[trigger] self@.outbox[base.len() + k]
                == spec_line(
                Some(old(self).cfg.sid@),
                "CAPAB"@,
                seq!["CAPABILITIES"@],
                Some(spec_capab_token((k - 1) as nat)),
            ) by {
                assert(spec_capab_token(0) == "PROTOCOL=1202"@);
                assert(spec_capab_token(1) == "NICKMAX=100"@);
                assert(spec_capab_token(2) == "CHANMAX=100"@);
                assert(spec_capab_token(3) == "MAXMODES=100"@);
                assert(spec_capab_token(4) == "IDENTMAX=100"@);
                assert(spec_capab_token(5) == "MAXQUIT=100"@);
                assert(spec_capab_token(6) == "MAXTOPIC=100"@);
                assert(spec_capab_token(7) == "MAXKICK=100"@);
                assert(spec_capab_token(8) == "MAXGECOS=100"@);
                assert(spec_capab_token(9) == "MAXAWAY=100"@);
            }
        }
    }

    /// Advertises one capability token.
    fn send_capability(&mut self, sid: &String, token: &str)
        ensures
            *final(self) == (InspLink { outbox: final(self).outbox, ..*old(self) }),
            final(self)@.outbox == old(self)@.outbox.push(
                spec_line(Some(sid@), "CAPAB"@, seq!["CAPABILITIES"@], Some(token@)),
            ),
    {
        let line = line1(
            Some(sid.clone()),
            "CAPAB",
            String::from_str("CAPABILITIES"),
            Some(token.to_owned()),
        );
        self.send(line);
    }

    /// Synthesizes the netburst: the burst timestamp, one UID for the
    /// control pseudo-user, one freshly-allocated UID per persisted
    /// recipient, and the end-of-burst marker.
    #[verifier::rlimit(80)]
    pub fn do_burst(&mut self, now: i64) -> (r: Result<(), String>)
        requires
            old(self).wf(),
            old(self)@.state != LinkState::Linked,
        ensures
            final(self).wf(),
            final(self)@.state == old(self)@.state,
            final(self)@.store == old(self)@.store,
            final(self)@.remote_sid == old(self)@.remote_sid,
            final(self).cfg == old(self).cfg,
            old(self)@.outbox.is_prefix_of(final(self)@.outbox),
            spec_burst_clean(*old(self)) ==> (r is Ok && ({
                let rs = old(self)@.store.recipients;
                let base = old(self)@.outbox.len() as int;
                let sid = old(self).cfg.sid@;
                let sn = old(self).cfg.server_name@;
                &&& final(self)@.outbox.len() == base + 3 + rs.len()
                &&& final(self)@.outbox[base] == spec_line(
                    Some(sid),
                    "BURST"@,
                    seq![util::spec_dec_i64(now)],
                    None,
                )
                &&& final(self)@.outbox[base + 1] == spec_uid_line(
                    sid,
                    old(self)@.control_uuid,
                    InspUserView {
                        ts: now,
                        nick: old(self).cfg.control_nick@,
                        hostname: sn,
                        displayed_hostname: sn,
                        ident: "~control"@,
                        ip: "0.0.0.0"@,
                        signon_time: now,
                        modes: "+i"@,
                        gecos: "sms-irc control bot"@,
                    },
                )
                &&& (forall|k: int|
                    0 <= k < rs.len() ==> #[trigger] final(self)@.outbox[base + 2 + k]
                        == spec_uid_line(
                        sid,
                        spec_uuid_str(sid, (old(self)@.next_user_id + k) as u32),
                        spec_ghost_user(sn, rs[k], now),
                    ))
                &&& final(self)@.outbox[base + 2 + rs.len()] == spec_line(
                    Some(sid),
                    "ENDBURST"@,
                    Seq::<Seq<char>>::empty(),
                    None,
                )
                &&& final(self)@.contacts.len() == rs.len()
            })),
    {
        let ghost base = self@.outbox;
        let sid = self.cfg.sid.clone();
        self.send(line1(Some(sid.clone()), "BURST", util::dec_i64(now), None));
        let cb = InspUser::new_for_controlbot(
            self.cfg.control_nick.clone(),
            self.cfg.server_name.as_str(),
            now,
        );
        let cb_line = self.make_uid_line(&self.control_uuid.clone(), &cb);
        self.put_user(self.control_uuid.clone(), cb);
        self.send(cb_line);
        proof {
            assert(self@.contacts =~= old(self)@.contacts);
            assert(self.wf());
        }
        let recips = self.store.get_all_recipients();
        let ghost rsv = crate::store::gviews_r(recips@);
        let ghost n0 = self@.next_user_id;
        let ghost outbase = self@.outbox;
        let rcnt = recips.len();
        let mut i: usize = 0;
        while i < rcnt
            invariant
                old(self).wf(),
                self.wf(),
                rcnt == recips@.len(),
                i <= rcnt,
                rsv == crate::store::gviews_r(recips@),
                rsv == old(self)@.store.recipients,
                self@.state == old(self)@.state,
                old(self)@.state != LinkState::Linked,
                self@.store == old(self)@.store,
                self@.remote_sid == old(self)@.remote_sid,
                self.cfg == old(self).cfg,
                old(self)@.outbox.is_prefix_of(outbase),
                outbase.is_prefix_of(self@.outbox),
                spec_burst_clean(*old(self)) ==> ({
                    &&& self@.next_user_id == n0 + i
                    &&& n0 == old(self)@.next_user_id
                    &&& self@.outbox.len() == outbase.len() + i
                    &&& (forall|k: int|
                        0 <= k < i ==> #[trigger] self@.outbox[outbase.len() + k]
                            == spec_uid_line(
                            old(self).cfg.sid@,
                            spec_uuid_str(old(self).cfg.sid@, (n0 + k) as u32),
                            spec_ghost_user(old(self).cfg.server_name@, rsv[k], now),
                        ))
                    &&& self@.contacts.len() == i
                    &&& (forall|j: int|
                        0 <= j < i ==> (#[trigger] self@.contacts[j]).0 == spec_un_normalize(
                            rsv[j].phone_number,
                        ).unwrap())
                }),
            decreases rcnt - i,
        {
            let ghost pre = *self;
            match self.setup_recipient(&recips[i], now) {
                Ok(()) => {},
                Err(e) => {
                    proof {
                        if spec_burst_clean(*old(self)) {
                            assert(spec_un_normalize(rsv[i as int].phone_number) is Some);
                            let av = spec_un_normalize(rsv[i as int].phone_number).unwrap();
                            assert(pre.spec_contact_for(av) is None) by {
                                lemma_lookup_contact(pre@.contacts, av);
                                match lookup_contact(pre@.contacts, av) {
                                    Some(x) => {
                                        let w = choose|w: int|
                                            0 <= w < pre@.contacts.len() && (
                                            #[trigger] pre@.contacts[w]).0 == av && pre@.contacts[w].1
                                                == x && forall|v: int|
                                                0 <= v < w ==> (#[trigger] pre@.contacts[v]).0
                                                    != av;
                                        assert(spec_un_normalize(rsv[w].phone_number).unwrap()
                                            == av);
                                        assert(false);
                                    },
                                    None => {},
                                }
                            }
                            assert(pre@.next_user_id <= 99999);
                            assert(false);
                        }
                        assert(old(self)@.outbox.is_prefix_of(self@.outbox)) by {
                            assert(self@.outbox.subrange(0, old(self)@.outbox.len() as int)
                                =~= old(self)@.outbox);
                        }
                    }
                    return Err(e);
                },
            }
            i = i + 1;
            proof {
                if spec_burst_clean(*old(self)) {
                    assert(spec_un_normalize(rsv[i - 1].phone_number) is Some);
                    let av = spec_un_normalize(rsv[i - 1].phone_number).unwrap();
                    assert(pre.spec_contact_for(av) is None) by {
                        lemma_lookup_contact(pre@.contacts, av);
                        match lookup_contact(pre@.contacts, av) {
                            Some(x) => {
                                let w = choose|w: int|
                                    0 <= w < pre@.contacts.len() && (
                                    #[trigger] pre@.contacts[w]).0 == av && pre@.contacts[w].1 == x
                                        && forall|v: int|
                                        0 <= v < w ==> (#[trigger] pre@.contacts[v]).0 != av;
                                assert(spec_un_normalize(rsv[w].phone_number).unwrap() == av);
                                assert(false);
                            },
                            None => {},
                        }
                    }
                    assert(recips@[i - 1]@ == rsv[i - 1]);
                }
                assert(outbase.is_prefix_of(self@.outbox)) by {
                    assert(self@.outbox.subrange(0, outbase.len() as int) =~= outbase);
                }
            }
        }
        proof {
            assert(old(self)@.outbox.is_prefix_of(self@.outbox)) by {
                assert(self@.outbox.subrange(0, old(self)@.outbox.len() as int) =~= old(
                    self,
                )@.outbox);
            }
        }
        let ghost pre_end = *self;
        self.send(line0(Some(sid), "ENDBURST", None));
        proof {
            assert(self@.contacts =~= pre_end@.contacts);
            assert(self.wf());
            assert(old(self)@.outbox.is_prefix_of(self@.outbox)) by {
                assert(self@.outbox.subrange(0, old(self)@.outbox.len() as int) =~= old(
                    self,
                )@.outbox);
            }
            if spec_burst_clean(*old(self)) {
                let rs = old(self)@.store.recipients;
                let b = old(self)@.outbox.len() as int;
                assert(self@.outbox.len() == b + 3 + rs.len());
                assert(self@.outbox[b] == outbase[b]);
                assert(self@.outbox[b + 1] == outbase[b + 1]);
                assert forall|k: int| 0 <= k < rs.len() implies #[trigger] self@.outbox[b + 2 + k]
                    == spec_uid_line(
                    old(self).cfg.sid@,
                    spec_uuid_str(old(self).cfg.sid@, (old(self)@.next_user_id + k) as u32),
                    spec_ghost_user(old(self).cfg.server_name@, rs[k], now),
                ) by {
                    assert(pre_end@.outbox[outbase.len() + k] == spec_uid_line(
                        old(self).cfg.sid@,
                        spec_uuid_str(old(self).cfg.sid@, (n0 + k) as u32),
                        spec_ghost_user(old(self).cfg.server_name@, rsv[k], now),
                    ));
                    assert(self@.outbox[outbase.len() + k] == pre_end@.outbox[outbase.len() + k]);
                }
            }
        }
        Ok(())
    }

    /// Sends a control-channel answer to the admin as a notice from the
    /// control pseudo-user; with no admin connected the answer is dropped.
    pub fn control_response(&mut self, msg: &str)
        ensures
            *final(self) == (InspLink { outbox: final(self).outbox, ..*old(self) }),
            old(self).spec_admin_uuid() matches Some(admu) ==> final(self)@.outbox == old(
                self,
            )@.outbox.push(
                spec_line(Some(old(self)@.control_uuid), "NOTICE"@, seq![admu], Some(msg@)),
            ),
            old(self).spec_admin_uuid() is None ==> *final(self) == *old(self),
    {
        match self.admin_uuid() {
            Some(admu) => {
                let line = line1(
                    Some(self.control_uuid.clone()),
                    "NOTICE",
                    admu,
                    Some(msg.to_owned()),
                );
                self.send(line);
            },
            None => {},
        }
    }

    /// Handles a link debug command.
    pub fn process_insp(&mut self, ic: crate::admin::InspCommand) -> (r: bool)
        requires
            old(self).wf(),
        ensures
            final(self).wf(),
            r == true,
            final(self)@.state == old(self)@.state,
            *final(self) == (InspLink { outbox: final(self).outbox, ..*old(self) }),
            ic@ matches crate::admin::InspCommandView::Raw(t) ==> ({
                let ws = util::spec_split_spaces(t);
                &&& (t.len() > 0 ==> final(self)@.outbox == old(self)@.outbox.push(
                    spec_line(None, ws[0], ws.skip(1), None),
                ))
                &&& (t.len() == 0 ==> ((old(self).spec_admin_uuid() matches Some(admu) ==> final(self)@.outbox == old(self)@.outbox.push(
                    spec_line(
                        Some(old(self)@.control_uuid),
                        "NOTICE"@,
                        seq![admu],
                        Some("cannot send an empty raw line"@),
                    ),
                )) && (old(self).spec_admin_uuid() is None ==> *final(self) == *old(self))))
            }),
            (ic@ matches crate::admin::InspCommandView::QueryUuid(uu) || ic@ matches crate::admin::InspCommandView::QueryNickUuid(uu)) ==> ((old(self).spec_admin_uuid()
                is Some ==> final(self)@.outbox.len() == old(self)@.outbox.len() + 1) && (old(self).spec_admin_uuid() is None ==> *final(self) == *old(self))),
    {
        match ic {
            crate::admin::InspCommand::Raw(text) => {
                if text.unicode_len() == 0 {
                    self.control_response("cannot send an empty raw line");
                    proof {
                        assert(self@.contacts =~= old(self)@.contacts);
                        assert(self.wf());
                    }
                    return true;
                }
                let words = crate::util::tokenize_spaces(text.as_str());
                proof {
                    util::lemma_split_spaces_nonempty(text@, Seq::<char>::empty());
                }
                if words.len() == 0 {
                    proof {
                        assert(false);
                    }
                    return true;
                }
                let cmd = words[0].clone();
                let args = crate::admin::tail_words(&words, 1);
                let line = IrcLine::new(None, cmd.as_str(), args, None);
                proof {
                    let ws = util::spec_split_spaces(text@);
                    assert(line@.args =~= ws.skip(1));
                    assert(line@ =~= spec_line(None, ws[0], ws.skip(1), None));
                }
                self.send(line);
                proof {
                    assert(self@.contacts =~= old(self)@.contacts);
                    assert(self.wf());
                }
                true
            },
            crate::admin::InspCommand::QueryUuid(uu) => {
                match self.find_user_index(uu.as_str()) {
                    Some(i) => {
                        let nick = self.users[i].1.nick.clone();
                        let mut out = String::from_str("uuid is known; nick is ");
                        out.append(nick.as_str());
                        self.control_response(out.as_str());
                    },
                    None => {
                        self.control_response("no user known under that uuid");
                    },
                }
                proof {
                    assert(self@.contacts =~= old(self)@.contacts);
                    assert(self.wf());
                }
                true
            },
            crate::admin::InspCommand::QueryNickUuid(qnu) => {
                let mut found: Option<String> = None;
                let cnt = self.users.len();
                let mut i: usize = 0;
                while i < cnt
                    invariant
                        cnt == self.users@.len(),
                        i <= cnt,
                        *self == *old(self),
                    decreases cnt - i,
                {
                    if util::string_eq(&self.users[i].1.nick, qnu.as_str()) {
                        found = Some(self.users[i].0.clone());
                    }
                    i = i + 1;
                }
                match found {
                    Some(uu) => {
                        let mut out = String::from_str("nick is known; uuid is ");
                        out.append(uu.as_str());
                        self.control_response(out.as_str());
                    },
                    None => {
                        self.control_response("no user known under that nick");
                    },
                }
                proof {
                    assert(self@.contacts =~= old(self)@.contacts);
                    assert(self.wf());
                }
                true
            },
        }
    }

    /// Parses and runs one admin command typed at the control user.
    pub fn process_admin_command(&mut self, mesg: &str, now: i64) -> (r: Result<(), String>)
        requires
            old(self).wf(),
        ensures
            final(self).wf(),
            final(self)@.state == old(self)@.state,
            final(self).cfg == old(self).cfg,
            mesg@.len() == 0 ==> (r is Ok && *final(self) == *old(self)),
            mesg@.len() > 0 ==> match crate::admin::spec_parse_admin(
                util::spec_split_spaces(mesg@),
            ) {
                None => {
                    &&& r is Ok
                    &&& final(self)@.m_outbox == old(self)@.m_outbox
                    &&& final(self)@.wa_outbox == old(self)@.wa_outbox
                    &&& final(self)@.cf_outbox == old(self)@.cf_outbox
                    &&& (old(self).spec_admin_uuid() matches Some(admu) ==> final(self)@.outbox
                        == old(self)@.outbox.push(
                        spec_line(
                            Some(old(self)@.control_uuid),
                            "NOTICE"@,
                            seq![admu],
                            Some("Invalid command. Try HELP for a command listing."@),
                        ),
                    ))
                    &&& (old(self).spec_admin_uuid() is None ==> *final(self) == *old(self))
                },
                Some(acv) => match acv {
                    crate::admin::AdminCommandView::Modem(mc) => r is Ok && *final(self)
                        == (InspLink { m_outbox: final(self).m_outbox, ..*old(self) }) && final(self)@.m_outbox == old(self)@.m_outbox.push(spec_modem_dispatch(mc)),
                    crate::admin::AdminCommandView::Whatsapp(w) => r is Ok && *final(self)
                        == (InspLink { wa_outbox: final(self).wa_outbox, ..*old(self) }) && final(self)@.wa_outbox == old(self)@.wa_outbox.push(spec_wa_dispatch(w)),
                    crate::admin::AdminCommandView::Group(g) => r is Ok && *final(self)
                        == (InspLink { wa_outbox: final(self).wa_outbox, ..*old(self) }) && final(self)@.wa_outbox == old(self)@.wa_outbox.push(spec_group_dispatch(g)),
                    crate::admin::AdminCommandView::Contact(c) => r is Ok && *final(self)
                        == (InspLink { cf_outbox: final(self).cf_outbox, ..*old(self) }) && final(self)@.cf_outbox == old(self)@.cf_outbox.push(spec_contact_dispatch(c)),
                    crate::admin::AdminCommandView::GhostCmd(gn, gc) => {
                        &&& r is Ok
                        &&& final(self)@.cf_outbox == old(self)@.cf_outbox.push(
                            spec_ghost_dispatch(gn, gc),
                        )
                        &&& final(self)@.m_outbox == old(self)@.m_outbox
                        &&& final(self)@.wa_outbox == old(self)@.wa_outbox
                        &&& (old(self).spec_admin_uuid() matches Some(admu) ==> final(self)@.outbox == old(self)@.outbox.push(
                            spec_line(
                                Some(old(self)@.control_uuid),
                                "NOTICE"@,
                                seq![admu],
                                Some("Ghost command executed."@),
                            ),
                        ))
                        &&& (old(self).spec_admin_uuid() is None ==> final(self)@.outbox == old(self)@.outbox)
                    },
                    crate::admin::AdminCommandView::Insp(ic) => r is Ok && *final(self)
                        == (InspLink { outbox: final(self).outbox, ..*old(self) }),
                    crate::admin::AdminCommandView::Help(q) => {
                        &&& r is Ok
                        &&& *final(self) == (InspLink { outbox: final(self).outbox, ..*old(self) })
                        &&& (old(self).spec_admin_uuid() is Some ==> final(self)@.outbox.len()
                            == old(self)@.outbox.len() + 1)
                        &&& (old(self).spec_admin_uuid() is None ==> *final(self) == *old(self))
                    },
                },
            },
    {
        if mesg.unicode_len() == 0 {
            return Ok(());
        }
        let words = crate::util::tokenize_spaces(mesg);
        proof {
            util::lemma_split_spaces_nonempty(mesg@, Seq::<char>::empty());
        }
        if words.len() == 0 {
            proof {
                assert(false);
            }
            return Ok(());
        }
        let parsed = crate::admin::AdminCommand::parse(&words);
        let ac = match parsed {
            Some(ac) => ac,
            None => {
                self.control_response("Invalid command. Try HELP for a command listing.");
                proof {
                    assert(self@.contacts =~= old(self)@.contacts);
                    assert(self.wf());
                }
                return Ok(());
            },
        };
        match ac {
            crate::admin::AdminCommand::GhostCmd(nick, gc) => {
                match gc {
                    crate::admin::GhostCommand::ChangeNick(n) => {
                        self.cf_outbox.push(
                            ContactFactoryCommand::ForwardCommandByNick(
                                nick,
                                ContactManagerCommand::ChangeNick(
                                    n,
                                    crate::models::NICKSRC_USER,
                                ),
                            ),
                        );
                    },
                    crate::admin::GhostCommand::SetWhatsapp(b) => {
                        self.cf_outbox.push(
                            ContactFactoryCommand::ForwardCommandByNick(
                                nick,
                                ContactManagerCommand::SetWhatsapp(b),
                            ),
                        );
                    },
                    crate::admin::GhostCommand::Remove => {
                        self.cf_outbox.push(ContactFactoryCommand::DropContactByNick(nick));
                    },
                }
                proof {
                    assert(self@.contacts =~= old(self)@.contacts);
                    assert(self.wf());
                }
                self.control_response("Ghost command executed.");
                proof {
                    assert(self@.contacts =~= old(self)@.contacts);
                    assert(self.wf());
                }
                Ok(())
            },
            crate::admin::AdminCommand::Modem(mc) => {
                let cts = match mc {
                    crate::admin::AdminModemCommand::GetCsq => ModemCommand::RequestCsq,
                    crate::admin::AdminModemCommand::GetReg => ModemCommand::RequestReg,
                    crate::admin::AdminModemCommand::Reinit => ModemCommand::ForceReinit,
                    crate::admin::AdminModemCommand::TempPath(s) => ModemCommand::UpdatePath(s),
                };
                self.m_outbox.push(cts);
                proof {
                    assert(self@.contacts =~= old(self)@.contacts);
                    assert(self.wf());
                }
                Ok(())
            },
            crate::admin::AdminCommand::Whatsapp(wac) => {
                let cts = match wac {
                    crate::admin::AdminWhatsappCommand::Setup => WhatsappCommand::StartRegistration,
                    crate::admin::AdminWhatsappCommand::Logon => WhatsappCommand::LogonIfSaved,
                    crate::admin::AdminWhatsappCommand::ChatList => WhatsappCommand::GroupList,
                    crate::admin::AdminWhatsappCommand::UpdateAll => WhatsappCommand::GroupUpdateAll,
                };
                self.wa_outbox.push(cts);
                proof {
                    assert(self@.contacts =~= old(self)@.contacts);
                    assert(self.wf());
                }
                Ok(())
            },
            crate::admin::AdminCommand::Group(gc) => {
                let cts = match gc {
                    crate::admin::GroupCommand::BridgeWhatsapp { jid, chan } => {
                        WhatsappCommand::GroupAssociate(jid, chan)
                    },
                    crate::admin::GroupCommand::Unbridge(ch) => WhatsappCommand::GroupRemove(ch),
                };
                self.wa_outbox.push(cts);
                proof {
                    assert(self@.contacts =~= old(self)@.contacts);
                    assert(self.wf());
                }
                Ok(())
            },
            crate::admin::AdminCommand::Contact(cc) => {
                let (addr, src) = match cc {
                    crate::admin::ContactCommand::NewSms(a) => (a, crate::models::SOURCE_SMS),
                    crate::admin::ContactCommand::NewWhatsapp(a) => (
                        a,
                        crate::models::SOURCE_WA,
                    ),
                };
                self.cf_outbox.push(ContactFactoryCommand::QueryContact(addr, src));
                proof {
                    assert(self@.contacts =~= old(self)@.contacts);
                    assert(self.wf());
                }
                Ok(())
            },
            crate::admin::AdminCommand::Insp(ic) => {
                let handled = self.process_insp(ic);
                if !handled {
                    self.control_response("Error: link debug commands are unavailable!");
                    proof {
                        assert(self@.contacts =~= old(self)@.contacts);
                        assert(self.wf());
                    }
                }
                Ok(())
            },
            crate::admin::AdminCommand::Help(qry) => {
                let page = match &qry {
                    Some(q) => crate::admin::help_page(Some(q.as_str())),
                    None => crate::admin::help_page(None),
                };
                match page {
                    Some(hp) => {
                        self.control_response(hp);
                    },
                    None => {
                        self.control_response("No help page found for that topic.");
                    },
                }
                proof {
                    assert(self@.contacts =~= old(self)@.contacts);
                    assert(self.wf());
                }
                Ok(())
            },
        }
    }

    /// Attempts delivery of every queued message, creating or asking for
    /// recipients as needed.  With no admin connected nothing happens.
    /// Whether an address is backed by this link: some ghost lives on it,
    /// or some recipient row decodes to it.
    pub open spec fn spec_addr_backed(self, av: AddrView) -> bool {
        (exists|k: int| 0 <= k < self@.contacts.len() && (#[trigger] self@.contacts[k]).0 == av)
            || (exists|ri: int|
            0 <= ri < self@.store.recipients.len() && spec_un_normalize(
                (#[trigger] self@.store.recipients[ri]).phone_number,
            ) == Some(av))
    }

    /// Whether a queued row's sender is wholly unknown to this link: its
    /// number decodes to a nonempty address, no recipient row decodes to
    /// that address, and no ghost lives on it.  Such a row asks the owning
    /// backend for a contact.
    pub open spec fn spec_needs_creation(self, m: MessageView) -> bool {
        &&& spec_un_normalize(m.phone_number) is Some
        &&& spec_un_normalize(m.phone_number).unwrap().digits.len() > 0
        &&& (forall|ri: int|
            0 <= ri < self@.store.recipients.len() ==> spec_un_normalize(
                (#[trigger] self@.store.recipients[ri]).phone_number,
            ) != spec_un_normalize(m.phone_number))
        &&& self.spec_contact_for(spec_un_normalize(m.phone_number).unwrap()) is None
    }

    #[verifier::rlimit(80)]
    #[verifier::spinoff_prover]
    pub fn process_messages(&mut self, now: i64) -> (r: Result<(), String>)
        requires
            old(self).wf(),
        ensures
            final(self).wf(),
            final(self)@.state == old(self)@.state,
            final(self).cfg == old(self).cfg,
            old(self)@.outbox.is_prefix_of(final(self)@.outbox),
            old(self).spec_admin_uuid() is None ==> (r is Ok && *final(self) == *old(self)),
            (r is Ok && old(self).spec_admin_uuid() is Some) ==> forall|j: int|
                #![trigger old(self)@.store.messages[j]]
                0 <= j < old(self)@.store.messages.len() ==> (old(self).spec_needs_creation(
                    old(self)@.store.messages[j],
                ) ==> ({
                    let av = spec_un_normalize(
                        old(self)@.store.messages[j].phone_number,
                    ).unwrap();
                    &&& (old(self)@.store.messages[j].source == crate::models::SOURCE_SMS
                        ==> final(self)@.m_outbox.contains(ModemCommandView::MakeContact(av)))
                    &&& (old(self)@.store.messages[j].source == crate::models::SOURCE_WA
                        ==> final(self)@.wa_outbox.contains(
                        WhatsappCommandView::MakeContact(av),
                    ))
                })),
            final(self)@.users.len() >= old(self)@.users.len(),
            forall|k: int|
                0 <= k < old(self)@.users.len() ==> (#[trigger] final(self)@.users[k]).0
                    == old(self)@.users[k].0,
    {
        let auid = match self.admin_uuid() {
            Some(x) => x,
            None => {
                return Ok(());
            },
        };
        let msgs = self.store.get_all_messages();
        let ghost mv = crate::store::mviews(msgs@);
        proof {
            assert(mv == old(self)@.store.messages);
            assert(old(self)@.outbox.is_prefix_of(self@.outbox)) by {
                assert(self@.outbox.subrange(0, old(self)@.outbox.len() as int) =~= old(self)@.outbox);
            }
        }
        let cnt = msgs.len();
        let mut i: usize = 0;
        while i < cnt
            invariant
                cnt == msgs@.len(),
                i <= cnt,
                self.wf(),
                old(self).wf(),
                mv == crate::store::mviews(msgs@),
                mv == old(self)@.store.messages,
                self@.state == old(self)@.state,
                self.cfg == old(self).cfg,
                old(self).spec_admin_uuid() is Some,
                old(self)@.outbox.is_prefix_of(self@.outbox),
                self@.users.len() >= old(self)@.users.len(),
                forall|k: int|
                    0 <= k < old(self)@.users.len() ==> (#[trigger] self@.users[k]).0
                        == old(self)@.users[k].0,
                self@.store.recipients.len() == old(self)@.store.recipients.len(),
                forall|ri: int|
                    0 <= ri < self@.store.recipients.len() ==> (#[trigger] self@.store.recipients[ri]).phone_number == old(self)@.store.recipients[ri].phone_number,
                forall|c: int|
                    0 <= c < self@.contacts.len() ==> old(self).spec_addr_backed(
                        (#[trigger] self@.contacts[c]).0,
                    ),
                forall|j: int|
                    #![trigger mv[j]]
                    0 <= j < i ==> (old(self).spec_needs_creation(mv[j]) ==> ({
                        let av = spec_un_normalize(mv[j].phone_number).unwrap();
                        &&& (mv[j].source == crate::models::SOURCE_SMS
                            ==> self@.m_outbox.contains(ModemCommandView::MakeContact(av)))
                        &&& (mv[j].source == crate::models::SOURCE_WA
                            ==> self@.wa_outbox.contains(WhatsappCommandView::MakeContact(av)))
                    })),
            decreases cnt - i,
        {
            let ghost it0 = *self;
            let msg = &msgs[i];
            let addr = match msg.get_addr() {
                Some(a) => a,
                None => {
                    return Err(String::from_str("undecodable address in message row"));
                },
            };
            proof {
                assert(msg@ == mv[i as int]);
            }
            let hc = self.has_contact(&addr);
            proof {
                if hc && old(self).spec_needs_creation(mv[i as int]) {
                    // a known sender cannot be wholly unknown
                    let av = spec_un_normalize(mv[i as int].phone_number).unwrap();
                    assert(addr@ == av);
                    lemma_lookup_contact(it0@.contacts, av);
                    let c0 = choose|c: int|
                        0 <= c < it0@.contacts.len() && (#[trigger] it0@.contacts[c]).0 == av
                            && it0@.contacts[c].1 == lookup_contact(it0@.contacts, av).unwrap()
                            && forall|j2: int|
                            0 <= j2 < c ==> (#[trigger] it0@.contacts[j2]).0 != av;
                    assert(old(self).spec_addr_backed(it0@.contacts[c0].0));
                    lemma_lookup_contact(old(self)@.contacts, av);
                    assert(false);
                }
            }
            if !hc {
                proof {
                    if old(self).spec_needs_creation(mv[i as int]) {
                        // the sender is unknown, so a creation request must go out
                        let av = spec_un_normalize(mv[i as int].phone_number).unwrap();
                        assert(addr@ == av);
                        self.store.lemma_recipient_by_phone(spec_normalize(av));
                        match self.store.spec_recipient_by_phone(spec_normalize(av)) {
                            Some(rec) => {
                                let ri = choose|ri: int|
                                    0 <= ri < self@.store.recipients.len()
                                        && #[trigger] self@.store.recipients[ri] == rec;
                                assert(old(self)@.store.recipients[ri].phone_number
                                    == spec_normalize(av));
                                crate::addr::lemma_addr_round_trip(av);
                                assert(spec_un_normalize(
                                    old(self)@.store.recipients[ri].phone_number,
                                ) == Some(av));
                                assert(false);
                            },
                            None => {},
                        }
                    }
                }
                let created = match self.request_contact(&addr, msg.source, now) {
                    Ok(b) => b,
                    Err(e) => {
                        return Err(e);
                    },
                };
                proof {
                    crate::store::lemma_prefix_trans(
                        old(self)@.outbox,
                        it0@.outbox,
                        self@.outbox,
                    );
                    assert forall|c: int|
                        0 <= c < self@.contacts.len() implies old(self).spec_addr_backed(
                        (#[trigger] self@.contacts[c]).0,
                    ) by {
                        if exists|k: int|
                            0 <= k < it0@.contacts.len() && (#[trigger] it0@.contacts[k]).0
                                == self@.contacts[c].0 {
                            let k0 = choose|k: int|
                                0 <= k < it0@.contacts.len() && (#[trigger] it0@.contacts[k]).0
                                    == self@.contacts[c].0;
                            assert(old(self).spec_addr_backed(it0@.contacts[k0].0));
                        } else {
                            // a fresh ghost: its address decodes from the
                            // recipient row the request attached to
                            match it0.store.spec_recipient_by_phone(spec_normalize(addr@)) {
                                Some(rec) => {
                                    it0.store.lemma_recipient_by_phone(spec_normalize(addr@));
                                    let ri = choose|ri: int|
                                        0 <= ri < it0@.store.recipients.len()
                                            && #[trigger] it0@.store.recipients[ri] == rec;
                                    assert(old(self)@.store.recipients[ri].phone_number
                                        == rec.phone_number);
                                    assert(spec_un_normalize(rec.phone_number) == Some(
                                        self@.contacts[c].0,
                                    ));
                                },
                                None => {
                                    assert(self@.contacts == it0@.contacts);
                                    assert(false);
                                },
                            }
                        }
                    }
                    // the fresh obligation for this row, and the old ones, hold
                    if old(self).spec_needs_creation(mv[i as int]) {
                        assert(self@.m_outbox == (if mv[i as int].source
                            == crate::models::SOURCE_SMS {
                            it0@.m_outbox.push(
                                ModemCommandView::MakeContact(addr@),
                            )
                        } else {
                            it0@.m_outbox
                        }));
                    }
                    assert forall|j: int|
                        0 <= j <= i && old(self).spec_needs_creation(#[trigger] mv[j]) implies ({
                        let av = spec_un_normalize(mv[j].phone_number).unwrap();
                        &&& (mv[j].source == crate::models::SOURCE_SMS
                            ==> self@.m_outbox.contains(ModemCommandView::MakeContact(av)))
                        &&& (mv[j].source == crate::models::SOURCE_WA
                            ==> self@.wa_outbox.contains(WhatsappCommandView::MakeContact(av)))
                    }) by {
                        let av = spec_un_normalize(mv[j].phone_number).unwrap();
                        if j < i {
                            if mv[j].source == crate::models::SOURCE_SMS {
                                crate::store::lemma_prefix_keeps_contains(
                                    it0@.m_outbox,
                                    self@.m_outbox,
                                    ModemCommandView::MakeContact(av),
                                );
                            }
                            if mv[j].source == crate::models::SOURCE_WA {
                                crate::store::lemma_prefix_keeps_contains(
                                    it0@.wa_outbox,
                                    self@.wa_outbox,
                                    WhatsappCommandView::MakeContact(av),
                                );
                            }
                        } else {
                            if mv[j].source == crate::models::SOURCE_SMS {
                                assert(self@.m_outbox.last()
                                    == ModemCommandView::MakeContact(av));
                            }
                            if mv[j].source == crate::models::SOURCE_WA {
                                assert(self@.wa_outbox.last()
                                    == WhatsappCommandView::MakeContact(av));
                            }
                        }
                    }
                }
                if !created {
                    i = i + 1;
                    continue;
                }
            }
            let (uuid, is_wa) = match self.find_contact_index(&addr) {
                Some(ci) => (self.contacts[ci].1.uuid.clone(), self.contacts[ci].1.wa_mode),
                None => {
                    // the ghost may still be missing when creation failed
                    i = i + 1;
                    continue;
                },
            };
            let has_pdu = msg.pdu.is_some();
            if has_pdu {
                if is_wa {
                    match self.set_wa_state(&addr, false) {
                        Ok(()) => {},
                        Err(e) => {
                            return Err(e);
                        },
                    }
                    let note = String::from_str("Notice: SMS mode automatically enabled.");
                    let _notice = self.contact_message(&uuid, "NOTICE", &auid, &note);
                }
                match self.process_msg_pdu(&uuid, msg) {
                    Ok(()) => {},
                    Err(e) => {
                        return Err(e);
                    },
                }
            } else {
                if !is_wa {
                    match self.set_wa_state(&addr, true) {
                        Ok(()) => {},
                        Err(e) => {
                            return Err(e);
                        },
                    }
                    let note = String::from_str("Notice: WhatsApp mode automatically enabled.");
                    let _notice = self.contact_message(&uuid, "NOTICE", &auid, &note);
                }
                if msg.text.is_some() {
                    match self.process_msg_plain(&uuid, msg) {
                        Ok(()) => {},
                        Err(e) => {
                            return Err(e);
                        },
                    }
                }
            }
            i = i + 1;
        }
        Ok(())
    }

    /// The MODE line reconciliation owes for one group participant: none
    /// when the participant has no recipient row, an undecodable number,
    /// or no live ghost; else the operator flag for its ghost, set exactly
    /// when the participant is among the group's admins.
    pub open spec fn spec_mode_for(self, gi: int, pi: int) -> Option<LineView> {
        let g = self@.store.groups[gi];
        let part = g.participants[pi];
        match self.store.spec_recipient_by_id(part) {
            Some(rec) => match spec_un_normalize(rec.phone_number) {
                Some(av) => match self.spec_contact_for(av) {
                    Some(ct) => Some(
                        spec_mode_line(
                            self.cfg.sid@,
                            g.channel,
                            g.admins.contains(part),
                            ct.uuid,
                        ),
                    ),
                    None => None,
                },
                None => None,
            },
            None => None,
        }
    }

    /// Runs full group reconciliation: every ghost joins exactly the
    /// channels of the groups its recipient takes part in plus the log
    /// channel, every participant with a live ghost gets its operator
    /// flag set or cleared, and cached topics are pushed where topic
    /// management is on.
    #[verifier::rlimit(80)]
    #[verifier::spinoff_prover]
    pub fn process_groups(&mut self) -> (r: Result<(), String>)
        requires
            old(self).wf(),
        ensures
            final(self).wf(),
            final(self)@.state == old(self)@.state,
            final(self).cfg == old(self).cfg,
            final(self)@.store == old(self)@.store,
            old(self)@.outbox.is_prefix_of(final(self)@.outbox),
            r is Ok ==> forall|gi: int, pi: int|
                #![trigger old(self).spec_mode_for(gi, pi)]
                0 <= gi < old(self)@.store.groups.len() && 0 <= pi < old(self)@.store.groups[gi].participants.len() ==> (old(self).spec_mode_for(gi, pi) matches Some(ml)
                    ==> final(self)@.outbox.contains(ml)),
    {
        self.channels = Vec::new();
        proof {
            assert(self@.contacts =~= old(self)@.contacts);
            assert(self.wf());
            assert(old(self)@.outbox.is_prefix_of(self@.outbox)) by {
                assert(self@.outbox.subrange(0, old(self)@.outbox.len() as int) =~= old(self)@.outbox);
            }
        }
        // refresh each ghost's memberships
        let mut addrs: Vec<PduAddr> = Vec::new();
        let ccnt = self.contacts.len();
        let mut ci: usize = 0;
        while ci < ccnt
            invariant
                ccnt == self.contacts@.len(),
                ci <= ccnt,
                self.wf(),
                self@.state == old(self)@.state,
                self.cfg == old(self).cfg,
                addrs@.len() == ci,
                forall|j: int| 0 <= j < ci ==> (#[trigger] addrs@[j])@ == self@.contacts[j].0,
            decreases ccnt - ci,
        {
            addrs.push(clone_addr(&self.contacts[ci].0));
            ci = ci + 1;
        }
        let acnt = addrs.len();
        let mut ai: usize = 0;
        while ai < acnt
            invariant
                acnt == addrs@.len(),
                ai <= acnt,
                self.wf(),
                old(self).wf(),
                self@.state == old(self)@.state,
                self.cfg == old(self).cfg,
                self@.store == old(self)@.store,
                old(self)@.outbox.is_prefix_of(self@.outbox),
                self@.contacts.len() == old(self)@.contacts.len(),
                forall|j: int|
                    0 <= j < self@.contacts.len() ==> ((#[trigger] self@.contacts[j]).0 == old(self)@.contacts[j].0 && self@.contacts[j].1.uuid == old(self)@.contacts[j].1.uuid),
            decreases acnt - ai,
        {
            if self.has_contact(&addrs[ai]) {
                let ghost mid = *self;
                match self.process_groups_for_recipient(&addrs[ai]) {
                    Ok(()) => {},
                    Err(e) => {
                        proof {
                            crate::store::lemma_prefix_trans(
                                old(self)@.outbox,
                                mid@.outbox,
                                self@.outbox,
                            );
                        }
                        return Err(e);
                    },
                }
                proof {
                    crate::store::lemma_prefix_trans(
                        old(self)@.outbox,
                        mid@.outbox,
                        self@.outbox,
                    );
                }
            }
            ai = ai + 1;
        }
        // set or clear operator flags per participant
        let groups = self.store.get_all_groups();
        let ghost gv = crate::store::gviews(groups@);
        proof {
            assert(gv == old(self)@.store.groups);
        }
        let gcnt = groups.len();
        let mut gi: usize = 0;
        while gi < gcnt
            invariant
                gcnt == groups@.len(),
                gi <= gcnt,
                self.wf(),
                old(self).wf(),
                gv == crate::store::gviews(groups@),
                gv == old(self)@.store.groups,
                self@.state == old(self)@.state,
                self.cfg == old(self).cfg,
                self@.store == old(self)@.store,
                old(self)@.outbox.is_prefix_of(self@.outbox),
                self@.contacts.len() == old(self)@.contacts.len(),
                forall|j: int|
                    0 <= j < self@.contacts.len() ==> ((#[trigger] self@.contacts[j]).0 == old(self)@.contacts[j].0 && self@.contacts[j].1.uuid == old(self)@.contacts[j].1.uuid),
                forall|gj: int, pj: int|
                    #![trigger old(self).spec_mode_for(gj, pj)]
                    0 <= gj < gi && 0 <= pj < old(self)@.store.groups[gj].participants.len()
                        ==> (old(self).spec_mode_for(gj, pj) matches Some(ml)
                        ==> self@.outbox.contains(ml)),
            decreases gcnt - gi,
        {
            let pcnt = groups[gi].participants.len();
            let mut pi: usize = 0;
            while pi < pcnt
                invariant
                    gi < gcnt == groups@.len(),
                    pcnt == groups@[gi as int].participants@.len(),
                    pi <= pcnt,
                    self.wf(),
                    old(self).wf(),
                    gv == crate::store::gviews(groups@),
                    gv == old(self)@.store.groups,
                    self@.state == old(self)@.state,
                    self.cfg == old(self).cfg,
                    self@.store == old(self)@.store,
                    old(self)@.outbox.is_prefix_of(self@.outbox),
                    self@.contacts.len() == old(self)@.contacts.len(),
                    forall|j: int|
                        0 <= j < self@.contacts.len() ==> ((#[trigger] self@.contacts[j]).0
                            == old(self)@.contacts[j].0 && self@.contacts[j].1.uuid == old(self)@.contacts[j].1.uuid),
                    forall|gj: int, pj: int|
                        #![trigger old(self).spec_mode_for(gj, pj)]
                        0 <= gj < gi && 0 <= pj < old(self)@.store.groups[gj].participants.len()
                            ==> (old(self).spec_mode_for(gj, pj) matches Some(ml)
                            ==> self@.outbox.contains(ml)),
                    forall|pj: int|
                        #![trigger old(self).spec_mode_for(gi as int, pj)]
                        0 <= pj < pi ==> (old(self).spec_mode_for(gi as int, pj) matches Some(ml)
                            ==> self@.outbox.contains(ml)),
                decreases pcnt - pi,
            {
                let ghost obligation = old(self).spec_mode_for(gi as int, pi as int);
                let part = groups[gi].participants[pi];
                proof {
                    assert(gv[gi as int] == groups@[gi as int]@);
                    assert(gv[gi as int].participants[pi as int] == part);
                }
                match self.store.get_recipient_by_id_opt(part) {
                    Some(recip) => {
                        match recip.get_addr() {
                            Some(num) => {
                                proof {
                                    lemma_lookup_same_addrs(
                                        self@.contacts,
                                        old(self)@.contacts,
                                        num@,
                                    );
                                }
                                match self.find_contact_index(&num) {
                                    Some(cidx) => {
                                        let uu = self.contacts[cidx].1.uuid.clone();
                                        proof {
                                            assert(lookup_contact(self@.contacts, num@)
                                                == Some(self@.contacts[cidx as int].1));
                                            assert(obligation matches Some(ml) && ml
                                                == spec_mode_line(
                                                old(self).cfg.sid@,
                                                gv[gi as int].channel,
                                                gv[gi as int].admins.contains(part),
                                                uu@,
                                            ));
                                        }
                                        let mode = if util::contains_i32(
                                            &groups[gi].admins,
                                            part,
                                        ) {
                                            String::from_str("+o")
                                        } else {
                                            String::from_str("-o")
                                        };
                                        let line = line3(
                                            Some(self.cfg.sid.clone()),
                                            "MODE",
                                            groups[gi].channel.clone(),
                                            mode,
                                            uu,
                                            None,
                                        );
                                        let ghost pre_send = *self;
                                        self.send(line);
                                        proof {
                                            assert(self@.contacts =~= pre_send@.contacts);
                                            assert(self.store == pre_send.store);
                                            assert(self.wf());
                                            assert(pre_send@.outbox.is_prefix_of(self@.outbox)) by {
                                                assert(self@.outbox.subrange(
                                                    0,
                                                    pre_send@.outbox.len() as int,
                                                ) =~= pre_send@.outbox);
                                            }
                                            crate::store::lemma_prefix_trans(
                                                old(self)@.outbox,
                                                pre_send@.outbox,
                                                self@.outbox,
                                            );
                                            assert(self@.outbox.contains(obligation.unwrap())) by {
                                                assert(self@.outbox.last()
                                                    == obligation.unwrap());
                                            }
                                            assert forall|gj: int, pj: int|
                                                0 <= gj < gi && 0 <= pj < old(self)@.store.groups[gj].participants.len() implies (#[trigger] old(self).spec_mode_for(gj, pj) matches Some(ml)
                                                ==> self@.outbox.contains(ml)) by {
                                                if old(self).spec_mode_for(gj, pj) is Some {
                                                    crate::store::lemma_prefix_keeps_contains(
                                                        pre_send@.outbox,
                                                        self@.outbox,
                                                        old(self).spec_mode_for(gj, pj).unwrap(),
                                                    );
                                                }
                                            }
                                            assert forall|pj: int|
                                                0 <= pj < pi implies (#[trigger] old(self).spec_mode_for(gi as int, pj) matches Some(ml) ==> self@.outbox.contains(ml)) by {
                                                if old(self).spec_mode_for(gi as int, pj)
                                                    is Some {
                                                    crate::store::lemma_prefix_keeps_contains(
                                                        pre_send@.outbox,
                                                        self@.outbox,
                                                        old(self).spec_mode_for(
                                                            gi as int,
                                                            pj,
                                                        ).unwrap(),
                                                    );
                                                }
                                            }
                                        }
                                    },
                                    None => {
                                        proof {
                                            assert(obligation is None);
                                        }
                                    },
                                }
                            },
                            None => {
                                return Err(String::from_str(
                                    "undecodable address in recipient row",
                                ));
                            },
                        }
                    },
                    None => {},
                }
                pi = pi + 1;
            }
            if self.cfg.set_topics {
                let ghost mid = *self;
                self.push_topic(&groups[gi]);
                proof {
                    crate::store::lemma_prefix_trans(
                        old(self)@.outbox,
                        mid@.outbox,
                        self@.outbox,
                    );
                    assert forall|gj: int, pj: int|
                        0 <= gj < gi + 1 && 0 <= pj < old(self)@.store.groups[gj].participants.len() implies (#[trigger] old(self).spec_mode_for(gj, pj) matches Some(ml)
                        ==> self@.outbox.contains(ml)) by {
                        if old(self).spec_mode_for(gj, pj) is Some {
                            if gj < gi as int || pj < pcnt {
                                crate::store::lemma_prefix_keeps_contains(
                                    mid@.outbox,
                                    self@.outbox,
                                    old(self).spec_mode_for(gj, pj).unwrap(),
                                );
                            }
                        }
                    }
                }
            }
            gi = gi + 1;
        }
        Ok(())
    }

    /// Pushes a group's stored topic when the cached one is empty or, with
    /// clobbering on, differs.
    fn push_topic(&mut self, grp: &crate::models::Group)
        requires
            old(self).wf(),
        ensures
            final(self).wf(),
            final(self)@.state == old(self)@.state,
            final(self).cfg == old(self).cfg,
            *final(self) == (InspLink {
                outbox: final(self).outbox,
                channel_topics: final(self).channel_topics,
                ..*old(self)
            }),
            old(self)@.outbox.is_prefix_of(final(self)@.outbox),
    {
        let mut cached: Option<String> = None;
        let tcnt = self.channel_topics.len();
        let mut ti: usize = 0;
        while ti < tcnt
            invariant
                tcnt == self.channel_topics@.len(),
                ti <= tcnt,
                *self == *old(self),
            decreases tcnt - ti,
        {
            if util::string_eq(&self.channel_topics[ti].0, grp.channel.as_str()) {
                cached = Some(self.channel_topics[ti].1.clone());
            }
            ti = ti + 1;
        }
        let current = match cached {
            Some(t) => t,
            None => String::new(),
        };
        let is_empty = current.unicode_len() == 0;
        let differs = !util::string_eq(&current, grp.topic.as_str());
        if is_empty || (self.cfg.clobber_topics && differs) {
            let line = line1(
                Some(self.cfg.sid.clone()),
                "TOPIC",
                grp.channel.clone(),
                Some(grp.topic.clone()),
            );
            self.send(line);
            self.set_topic_cache(grp.channel.clone(), grp.topic.clone());
            proof {
                assert(self@.contacts =~= old(self)@.contacts);
                assert(self.wf());
            }
        }
    }

    /// Records the cached topic of a channel.
    fn set_topic_cache(&mut self, chan: String, topic: String)
        ensures
            *final(self) == (InspLink { channel_topics: final(self).channel_topics, ..*old(self) }),
    {
        let cnt = self.channel_topics.len();
        let mut i: usize = 0;
        while i < cnt
            invariant
                cnt == self.channel_topics@.len(),
                i <= cnt,
                *self == (InspLink { channel_topics: self.channel_topics, ..*old(self) }),
            decreases cnt - i,
        {
            if util::string_eq(&self.channel_topics[i].0, chan.as_str()) {
                self.channel_topics.set(i, (chan, topic));
                return;
            }
            i = i + 1;
        }
        self.channel_topics.push((chan, topic));
    }

    /// Runs once the link reaches Linked: the control user joins the log
    /// channel, groups are reconciled, and backlogged messages go out.
    pub fn on_linked(&mut self, now: i64) -> (r: Result<(), String>)
        requires
            old(self).wf(),
        ensures
            final(self).wf(),
            final(self)@.state == old(self)@.state,
            final(self).cfg == old(self).cfg,
            old(self)@.outbox.is_prefix_of(final(self)@.outbox),
            final(self)@.outbox.len() > old(self)@.outbox.len(),
            final(self)@.outbox[old(self)@.outbox.len() as int] == spec_line(
                Some(old(self)@.control_uuid),
                "JOIN"@,
                seq![old(self).cfg.log_chan@],
                None,
            ),
            r is Ok ==> forall|gi: int, pi: int|
                #![trigger old(self).spec_mode_for(gi, pi)]
                0 <= gi < old(self)@.store.groups.len() && 0 <= pi < old(self)@.store.groups[gi].participants.len() ==> (old(self).spec_mode_for(gi, pi) matches Some(ml)
                    ==> final(self)@.outbox.contains(ml)),
    {
        let line = line1(
            Some(self.control_uuid.clone()),
            "JOIN",
            self.cfg.log_chan.clone(),
            None,
        );
        self.send(line);
        let ghost mid = *self;
        proof {
            assert(self@.contacts =~= old(self)@.contacts);
            assert(self.wf());
            assert(old(self)@.outbox.is_prefix_of(mid@.outbox)) by {
                assert(mid@.outbox.subrange(0, old(self)@.outbox.len() as int) =~= old(self)@.outbox);
            }
        }
        match self.process_groups() {
            Ok(()) => {},
            Err(e) => {
                proof {
                    crate::store::lemma_prefix_trans(
                        old(self)@.outbox,
                        mid@.outbox,
                        self@.outbox,
                    );
                    assert(self@.outbox[old(self)@.outbox.len() as int]
                        == mid@.outbox[old(self)@.outbox.len() as int]) by {
                        assert(mid@.outbox[old(self)@.outbox.len() as int] == self@.outbox.subrange(0, mid@.outbox.len() as int)[old(self)@.outbox.len() as int]);
                    }
                }
                return Err(e);
            },
        }
        let ghost pg = *self;
        proof {
            crate::store::lemma_prefix_trans(old(self)@.outbox, mid@.outbox, pg@.outbox);
            // the link state right after the join differs from the entry
            // state only in its outbox, so the owed MODE lines agree
            assert forall|gi: int, pi: int|
                0 <= gi < old(self)@.store.groups.len() && 0 <= pi < old(self)@.store.groups[gi].participants.len() implies #[trigger] old(self).spec_mode_for(gi, pi)
                == mid.spec_mode_for(gi, pi) by {
                assert(mid@.store == old(self)@.store);
                assert(mid@.contacts == old(self)@.contacts);
            }
        }
        let res = self.process_messages(now);
        proof {
            crate::store::lemma_prefix_trans(old(self)@.outbox, pg@.outbox, self@.outbox);
            assert(pg@.outbox[old(self)@.outbox.len() as int]
                == mid@.outbox[old(self)@.outbox.len() as int]) by {
                assert(mid@.outbox[old(self)@.outbox.len() as int] == pg@.outbox.subrange(0, mid@.outbox.len() as int)[old(self)@.outbox.len() as int]);
            }
            assert(self@.outbox[old(self)@.outbox.len() as int]
                == pg@.outbox[old(self)@.outbox.len() as int]) by {
                assert(pg@.outbox[old(self)@.outbox.len() as int] == self@.outbox.subrange(0, pg@.outbox.len() as int)[old(self)@.outbox.len() as int]);
            }
            if res is Ok {
                assert forall|gi: int, pi: int|
                    0 <= gi < old(self)@.store.groups.len() && 0 <= pi < old(self)@.store.groups[gi].participants.len() implies (#[trigger] old(self).spec_mode_for(gi, pi) matches Some(ml) ==> self@.outbox.contains(ml)) by {
                    if old(self).spec_mode_for(gi, pi) is Some {
                        crate::store::lemma_prefix_keeps_contains(
                            pg@.outbox,
                            self@.outbox,
                            old(self).spec_mode_for(gi, pi).unwrap(),
                        );
                    }
                }
            }
        }
        res
    }

    /// Routes one ghost-factory command.
    pub fn handle_cf_command(&mut self, cfc: ContactFactoryCommand, now: i64) -> (r: Result<
        (),
        String,
    >)
        requires
            old(self).wf(),
        ensures
            final(self).wf(),
            final(self)@.state == old(self)@.state,
            (cfc@ == ContactFactoryCommandView::LoadRecipients || cfc@
                == ContactFactoryCommandView::ProcessAvatars) ==> (r is Ok && *final(self) == *old(self)),
            cfc@ == ContactFactoryCommandView::ProcessMessages ==> (old(self).spec_admin_uuid()
                is None ==> (r is Ok && *final(self) == *old(self))),
            cfc@ matches ContactFactoryCommandView::SetupContact(av) ==> (old(self).store.spec_recipient_by_phone(spec_normalize(av)) is None ==> (r is Ok && *final(self)
                == *old(self))),
            cfc@ matches ContactFactoryCommandView::DropContact(av) ==> (final(self)@.store.recipients == old(self)@.store.recipients.filter(
                |x: RecipientView| x.phone_number != spec_normalize(av),
            ) && (r is Ok ==> final(self).spec_contact_for(av) is None)),
            cfc@ matches ContactFactoryCommandView::DropContactByNick(n) ==> (old(self).spec_resolve_nick(n) is None ==> (r is Ok && *final(self) == *old(self))),
            cfc@ matches ContactFactoryCommandView::ForwardCommandByNick(n, c) ==> (r is Ok && (
            old(self).spec_resolve_nick(n) is None ==> *final(self) == *old(self))),
            cfc@ matches ContactFactoryCommandView::SubscribePresenceByNick(n) ==> (r is Ok && (
            old(self).spec_resolve_nick(n) is None ==> *final(self) == *old(self)) && (old(self).spec_resolve_nick(n) matches Some(av) ==> (*final(self) == (InspLink {
                wa_outbox: final(self).wa_outbox,
                ..*old(self)
            }) && final(self)@.wa_outbox == old(self)@.wa_outbox.push(
                WhatsappCommandView::SubscribePresence(av),
            )))),
            cfc@ matches ContactFactoryCommandView::QueryContact(av, src) ==> (final(self)@.cb_outbox.len() == old(self)@.cb_outbox.len() + 1 && final(self)@.store == old(self)@.store),
    {
        match cfc {
            ContactFactoryCommand::ProcessMessages => self.process_messages(now),
            ContactFactoryCommand::ProcessGroups => self.process_groups(),
            ContactFactoryCommand::SetupContact(a) => self.setup_contact(&a, now),
            ContactFactoryCommand::QueryContact(a, src) => self.query_contact(&a, src, now),
            ContactFactoryCommand::DropContact(a) => self.drop_contact(&a),
            ContactFactoryCommand::DropContactByNick(n) => self.drop_contact_by_nick(n.as_str()),
            ContactFactoryCommand::LoadRecipients => Ok(()),
            ContactFactoryCommand::ForwardCommand(a, cmd) => self.forward_cmd(&a, &cmd, now),
            ContactFactoryCommand::ForwardCommandByNick(n, cmd) => self.forward_cmd_by_nick(
                n.as_str(),
                &cmd,
                now,
            ),
            ContactFactoryCommand::SubscribePresenceByNick(n) => {
                self.subscribe_presence_by_nick(n.as_str());
                Ok(())
            },
            ContactFactoryCommand::ProcessAvatars => Ok(()),
        }
    }

    /// Routes one control-bot command.
    pub fn handle_cb_command(&mut self, cbc: ControlBotCommand, now: i64) -> (r: Result<
        (),
        String,
    >)
        requires
            old(self).wf(),
        ensures
            final(self).wf(),
            final(self)@.state == old(self)@.state,
            final(self).cfg == old(self).cfg,
            cbc@ matches ControlBotCommandView::Log(t) ==> (r is Ok && *final(self) == (InspLink {
                outbox: final(self).outbox,
                ..*old(self)
            }) && final(self)@.outbox == old(self)@.outbox.push(
                spec_line(
                    Some(old(self).cfg.sid@),
                    "NOTICE"@,
                    seq![old(self).cfg.log_chan@],
                    Some(t),
                ),
            )),
            cbc@ matches ControlBotCommandView::ReportFailure(f) ==> (r is Ok && (old(self).spec_admin_uuid() matches Some(admu) ==> (*final(self) == (InspLink {
                outbox: final(self).outbox,
                ..*old(self)
            }) && final(self)@.outbox == old(self)@.outbox.push(
                spec_line(
                    Some(old(self).cfg.sid@),
                    "PRIVMSG"@,
                    seq![admu],
                    Some(old(self).cfg.admin_nick@ + ": "@ + f),
                ),
            ))) && (old(self).spec_admin_uuid() is None ==> *final(self) == *old(self))),
            cbc@ matches ControlBotCommandView::CommandResponse(t) ==> (r is Ok && (old(self).spec_admin_uuid() matches Some(admu) ==> (*final(self) == (InspLink {
                outbox: final(self).outbox,
                ..*old(self)
            }) && final(self)@.outbox == old(self)@.outbox.push(
                spec_line(Some(old(self)@.control_uuid), "NOTICE"@, seq![admu], Some(t)),
            ))) && (old(self).spec_admin_uuid() is None ==> *final(self) == *old(self))),
    {
        match cbc {
            ControlBotCommand::Log(line_text) => {
                let line = line1(
                    Some(self.cfg.sid.clone()),
                    "NOTICE",
                    self.cfg.log_chan.clone(),
                    Some(line_text),
                );
                self.send(line);
                proof {
                    assert(self@.contacts =~= old(self)@.contacts);
                    assert(self.wf());
                }
                Ok(())
            },
            ControlBotCommand::ReportFailure(fail) => {
                match self.admin_uuid() {
                    Some(admu) => {
                        let mut text = self.cfg.admin_nick.clone();
                        text.append(": ");
                        text.append(fail.as_str());
                        proof {
                            assert(text@ =~= old(self).cfg.admin_nick@ + ": "@ + fail@);
                        }
                        let line = line1(
                            Some(self.cfg.sid.clone()),
                            "PRIVMSG",
                            admu,
                            Some(text),
                        );
                        self.send(line);
                        proof {
                            assert(self@.contacts =~= old(self)@.contacts);
                            assert(self.wf());
                        }
                    },
                    None => {},
                }
                Ok(())
            },
            ControlBotCommand::CommandResponse(resp) => {
                self.control_response(resp.as_str());
                proof {
                    assert(self@.contacts =~= old(self)@.contacts);
                    assert(self.wf());
                }
                Ok(())
            },
            ControlBotCommand::ProcessGroups => self.process_groups(),
        }
    }

    /// Handles one line from the peer.  Explicit errors and malformed
    /// handshake lines are fatal; the handshake moves strictly forward;
    /// a two-argument ping is answered with its arguments swapped, not
    /// merely echoed.
    pub fn handle_remote_message(&mut self, line: &IrcLine, now: i64) -> (r: Result<(), String>)
        requires
            old(self).wf(),
        ensures
            final(self).wf(),
            spec_state_rank(final(self)@.state) >= spec_state_rank(old(self)@.state),
            line@.command == "ERROR"@ ==> (r is Err && *final(self) == *old(self)),
            (line@.prefix is None && line@.command == "SERVER"@ && spec_state_rank(
                old(self)@.state,
            ) <= 1) ==> ((line@.args.len() != 4 || line@.args[1] != old(self).cfg.recvpass@
                || line@.args[2] != "0"@) ==> (r is Err && *final(self) == *old(self))),
            (line@.prefix is None && line@.command == "SERVER"@ && spec_state_rank(
                old(self)@.state,
            ) <= 1 && line@.args.len() == 4 && line@.args[1] == old(self).cfg.recvpass@
                && line@.args[2] == "0"@ && spec_burst_clean(*old(self))) ==> r is Ok,
            (line@.command == "ENDBURST"@ && line@.prefix is Some && line@.prefix != Some(
                old(self)@.remote_sid,
            )) ==> *final(self) == *old(self),
            (line@.prefix is None && line@.command == "SERVER"@ && spec_state_rank(
                old(self)@.state,
            ) <= 1 && line@.args.len() == 4 && line@.args[1] == old(self).cfg.recvpass@
                && line@.args[2] == "0"@ && r is Ok) ==> (final(self)@.state
                == LinkState::BurstSent && final(self)@.remote_sid == line@.args[3]),
            (line@.prefix is Some && line@.command == "PING"@) ==> (r is Ok && ({
                let ps = line@.args + (match line@.suffix {
                    Some(t) => seq![t],
                    None => Seq::<Seq<char>>::empty(),
                });
                &&& ps.len() >= 2 ==> final(self)@.outbox == old(self)@.outbox.push(
                    spec_line(Some(old(self).cfg.sid@), "PONG"@, seq![ps[1], ps[0]], None),
                )
                &&& ps.len() == 1 ==> final(self)@.outbox == old(self)@.outbox.push(
                    spec_line(Some(old(self).cfg.sid@), "PONG"@, seq![ps[0]], None),
                )
                &&& ps.len() == 0 ==> final(self)@.outbox == old(self)@.outbox
            })),
            (line@.prefix == Some(old(self)@.remote_sid) && line@.command == "ENDBURST"@ && r
                is Ok) ==> final(self)@.state == LinkState::Linked,
            (line@.prefix is Some && line@.command == "SQUIT"@ && line@.args.len() >= 1) ==> (r
                is Ok && final(self)@.users == old(self)@.users.filter(
                |q: (Seq<char>, InspUserView)| !line@.args[0].is_prefix_of(q.0),
            ) && final(self)@.contacts == old(self)@.contacts),
            (line@.prefix is Some && line@.command == "UID"@) ==> ({
                let av = line@.args;
                let wellformed = av.len() >= 9 && line@.suffix is Some && util::spec_parse_i64(
                    av[1],
                ) is Some && util::spec_parse_i64(av[7]) is Some;
                &&& (!wellformed ==> (r is Err && *final(self) == *old(self)))
                &&& ((wellformed && av[2] != old(self).cfg.admin_nick@) ==> (r is Ok && final(self).spec_has_user(av[0]) && *final(self) == (InspLink {
                    users: final(self).users,
                    ..*old(self)
                })))
                &&& ((wellformed && av[2] == old(self).cfg.admin_nick@)
                    ==> final(self).spec_has_user(av[0]))
            }),
    {
        proof {
            reveal_strlit("ERROR");
            reveal_strlit("SERVER");
            reveal_strlit("PING");
            reveal_strlit("PONG");
            reveal_strlit("KILL");
            reveal_strlit("QUIT");
            reveal_strlit("SQUIT");
            reveal_strlit("UID");
            reveal_strlit("NICK");
            reveal_strlit("FHOST");
            reveal_strlit("FTOPIC");
            reveal_strlit("ENDBURST");
            reveal_strlit("PRIVMSG");
            reveal_strlit("CAPAB");
            assert("ERROR"@.len() == 5);
            assert("SERVER"@.len() == 6);
            assert("PING"@.len() == 4);
            assert("ENDBURST"@.len() == 8);
            assert("KILL"@.len() == 4);
            assert("QUIT"@.len() == 4);
            assert("SQUIT"@.len() == 5);
            assert("UID"@.len() == 3);
            assert("NICK"@.len() == 4);
            assert("FHOST"@.len() == 5);
            assert("FTOPIC"@.len() == 6);
            assert("PRIVMSG"@.len() == 7);
            assert("QUIT"@ != "PING"@) by {
                assert("QUIT"@[0] == 'Q');
                assert("PING"@[0] == 'P');
            }
            assert("NICK"@ != "PING"@) by {
                assert("NICK"@[0] == 'N');
                assert("PING"@[0] == 'P');
            }
            assert("KILL"@ != "PING"@) by {
                assert("KILL"@[0] == 'K');
                assert("PING"@[0] == 'P');
            }
            assert("PONG"@ != "PING"@) by {
                assert("PONG"@[1] == 'O');
                assert("PING"@[1] == 'I');
            }
            assert("SQUIT"@ != "ERROR"@) by {
                assert("SQUIT"@[0] == 'S');
                assert("ERROR"@[0] == 'E');
            }
            assert("FHOST"@ != "ERROR"@) by {
                assert("FHOST"@[0] == 'F');
                assert("ERROR"@[0] == 'E');
            }
            assert("FTOPIC"@ != "SERVER"@) by {
                assert("FTOPIC"@[0] == 'F');
                assert("SERVER"@[0] == 'S');
            }
        }
        let has_prefix = line.prefix.is_some();
        if !has_prefix {
            if util::string_eq(&line.command, "ERROR") {
                return Err(String::from_str("explicit error from peer"));
            }
            if util::string_eq(&line.command, "SERVER") {
                let early = match self.state {
                    LinkState::TcpConnected => true,
                    LinkState::ServerSent => true,
                    LinkState::BurstSent => false,
                    LinkState::Linked => false,
                };
                if !early {
                    return Ok(());
                }
                if line.args.len() != 4 {
                    return Err(String::from_str("SERVER with wrong argument count"));
                }
                if !util::string_eq(&line.args[1], self.cfg.recvpass.as_str()) {
                    return Err(String::from_str("invalid password from remote server"));
                }
                if !util::string_eq(&line.args[2], "0") {
                    return Err(String::from_str("SERVER with nonzero hopcount"));
                }
                self.remote_sid = line.args[3].clone();
                proof {
                    assert(self@.contacts =~= old(self)@.contacts);
                    assert(self.wf());
                    if spec_burst_clean(*old(self)) {
                        assert(self@.store == old(self)@.store);
                        assert(self@.next_user_id == old(self)@.next_user_id);
                        assert(spec_burst_clean(*self));
                    }
                }
                match self.do_burst(now) {
                    Ok(()) => {},
                    Err(e) => {
                        return Err(e);
                    },
                }
                let ghost pb = *self;
                self.state = LinkState::BurstSent;
                proof {
                    assert(self@.contacts =~= pb@.contacts);
                    assert(self.store == pb.store);
                    assert(self.wf());
                }
                return Ok(());
            }
            // an unprefixed CAPAB or anything else carries no state
            return Ok(());
        }
        let prefix = match &line.prefix {
            Some(p) => p.clone(),
            None => {
                proof {
                    assert(false);
                }
                return Err(String::new());
            },
        };
        if util::string_eq(&line.command, "ERROR") {
            return Err(String::from_str("explicit error from peer"));
        }
        if util::string_eq(&line.command, "PING") {
            let mut ps: Vec<String> = Vec::new();
            let acnt = line.args.len();
            let mut ai: usize = 0;
            while ai < acnt
                invariant
                    acnt == line.args@.len(),
                    ai <= acnt,
                    ps@.len() == ai,
                    forall|j: int| 0 <= j < ai ==> (#[trigger] ps@[j])@ == line@.args[j],
                decreases acnt - ai,
            {
                ps.push(line.args[ai].clone());
                ai = ai + 1;
            }
            match &line.suffix {
                Some(t) => {
                    ps.push(t.clone());
                },
                None => {},
            }
            proof {
                assert(ps@.map_values(|w: String| w@) =~= line@.args + (match line@.suffix {
                    Some(t) => seq![t],
                    None => Seq::<Seq<char>>::empty(),
                }));
            }
            if ps.len() >= 2 {
                let line_out = line2(
                    Some(self.cfg.sid.clone()),
                    "PONG",
                    ps[1].clone(),
                    ps[0].clone(),
                    None,
                );
                self.send(line_out);
            } else if ps.len() == 1 {
                let line_out = line1(Some(self.cfg.sid.clone()), "PONG", ps[0].clone(), None);
                self.send(line_out);
            }
            proof {
                assert(self@.contacts =~= old(self)@.contacts);
                assert(self.wf());
            }
            return Ok(());
        }
        if util::string_eq(&line.command, "KILL") {
            if line.args.len() < 1 {
                return Ok(());
            }
            let target = line.args[0].clone();
            return self.remove_user(&target, true, now);
        }
        if util::string_eq(&line.command, "QUIT") {
            return self.remove_user(&prefix, true, now);
        }
        if util::string_eq(&line.command, "SQUIT") {
            if line.args.len() < 1 {
                return Ok(());
            }
            let server = line.args[0].clone();
            self.handle_squit(&server);
            proof {
                crate::store::lemma_filter_ptwise(
                    old(self)@.users,
                    |q: (Seq<char>, InspUserView)| !server@.is_prefix_of(q.0),
                    |q: (Seq<char>, InspUserView)| !line@.args[0].is_prefix_of(q.0),
                );
            }
            return Ok(());
        }
        if util::string_eq(&line.command, "UID") {
            return self.handle_uid_line(line, now);
        }
        if util::string_eq(&line.command, "NICK") {
            if line.args.len() < 1 {
                return Ok(());
            }
            let newnick = line.args[0].clone();
            self.update_user_nick(&prefix, &newnick);
            proof {
                assert(self@.contacts =~= old(self)@.contacts);
                assert(self.wf());
            }
            return Ok(());
        }
        if util::string_eq(&line.command, "FHOST") {
            if line.args.len() < 1 {
                return Ok(());
            }
            let host = line.args[0].clone();
            self.update_user_host(&prefix, &host);
            proof {
                assert(self@.contacts =~= old(self)@.contacts);
                assert(self.wf());
            }
            return Ok(());
        }
        if util::string_eq(&line.command, "FTOPIC") {
            if line.args.len() < 3 {
                return Ok(());
            }
            match &line.suffix {
                Some(t) => {
                    let chan = line.args[0].clone();
                    self.set_topic_cache(chan, t.clone());
                    proof {
                        assert(self@.contacts =~= old(self)@.contacts);
                        assert(self.wf());
                    }
                },
                None => {},
            }
            return Ok(());
        }
        if util::string_eq(&line.command, "ENDBURST") {
            if util::string_eq(&prefix, self.remote_sid.as_str()) {
                self.state = LinkState::Linked;
                proof {
                    assert(self@.contacts =~= old(self)@.contacts);
                    assert(self.wf());
                }
                match self.on_linked(now) {
                    Ok(()) => {},
                    Err(e) => {
                        return Err(e);
                    },
                }
            }
            return Ok(());
        }
        if util::string_eq(&line.command, "PRIVMSG") {
            if line.args.len() < 1 {
                return Ok(());
            }
            let target = line.args[0].clone();
            let text: String = match &line.suffix {
                Some(t) => t.clone(),
                None => {
                    if line.args.len() >= 2 {
                        line.args[1].clone()
                    } else {
                        return Ok(());
                    }
                },
            };
            let is_admin_sender = match self.admin_uuid() {
                Some(admu) => util::string_eq(&prefix, admu.as_str()),
                None => false,
            };
            if !is_admin_sender {
                return Ok(());
            }
            if util::string_eq(&target, self.control_uuid.as_str()) {
                return self.process_admin_command(text.as_str(), now);
            }
            if self.is_bridged_channel(target.as_str()) {
                self.wa_outbox.push(WhatsappCommand::SendGroupMessage(target, text));
                proof {
                    assert(self@.contacts =~= old(self)@.contacts);
                    assert(self.wf());
                }
                return Ok(());
            }
            match self.find_contact_by_uuid(&target) {
                Some(ci) => {
                    let addr = clone_addr(&self.contacts[ci].0);
                    if self.contacts[ci].1.wa_mode {
                        self.wa_outbox.push(WhatsappCommand::SendDirectMessage(addr, text));
                    } else {
                        self.m_outbox.push(ModemCommand::SendMessage(addr, text));
                    }
                    proof {
                        assert(self@.contacts =~= old(self)@.contacts);
                        assert(self.wf());
                    }
                },
                None => {},
            }
            return Ok(());
        }
        Ok(())
    }

    /// Handles a server split: every wire user whose UUID the split
    /// server's id prefixes goes away.
    pub fn handle_squit(&mut self, server: &String)
        requires
            old(self).wf(),
        ensures
            final(self).wf(),
            *final(self) == (InspLink { users: final(self).users, ..*old(self) }),
            final(self)@.users == old(self)@.users.filter(
                |q: (Seq<char>, InspUserView)| !server@.is_prefix_of(q.0),
            ),
    {
        let cnt = self.users.len();
        let mut kept: Vec<(String, InspUser)> = Vec::new();
        let mut i: usize = 0;
        proof {
            reveal(Seq::filter);
        }
        while i < cnt
            invariant
                cnt == self.users@.len(),
                i <= cnt,
                *self == *old(self),
                uviews(kept@) == old(self)@.users.subrange(0, i as int).filter(
                    |q: (Seq<char>, InspUserView)| !server@.is_prefix_of(q.0),
                ),
            decreases cnt - i,
        {
            proof {
                reveal(Seq::filter);
                assert(old(self)@.users.subrange(0, i + 1).drop_last() == old(self)@.users.subrange(0, i as int));
                assert(old(self)@.users.subrange(0, i + 1).last() == old(self)@.users[i as int]);
            }
            if !util::str_starts_with(self.users[i].0.as_str(), server.as_str()) {
                let u0 = self.users[i].0.clone();
                let u1 = self.users[i].1.duplicate();
                proof {
                    assert((u0@, u1@) =~= old(self)@.users[i as int]);
                }
                kept.push((u0, u1));
            }
            i = i + 1;
            proof {
                assert(uviews(kept@) =~= old(self)@.users.subrange(0, i as int).filter(
                    |q: (Seq<char>, InspUserView)| !server@.is_prefix_of(q.0),
                ));
            }
        }
        proof {
            assert(old(self)@.users.subrange(0, cnt as int) == old(self)@.users);
        }
        self.users = kept;
        proof {
            assert(self@.contacts =~= old(self)@.contacts);
            assert(self.wf());
        }
    }

    /// Registers the wire user a remote `UID` line announces; a malformed
    /// line is fatal, and the admin's arrival triggers a delivery pass.
    #[verifier::rlimit(50)]
    #[verifier::spinoff_prover]
    pub fn handle_uid_line(&mut self, line: &IrcLine, now: i64) -> (r: Result<(), String>)
        requires
            old(self).wf(),
        ensures
            final(self).wf(),
            final(self)@.state == old(self)@.state,
            final(self).cfg == old(self).cfg,
            ({
                let av = line@.args;
                let wellformed = av.len() >= 9 && line@.suffix is Some && util::spec_parse_i64(
                    av[1],
                ) is Some && util::spec_parse_i64(av[7]) is Some;
                &&& (!wellformed ==> (r is Err && *final(self) == *old(self)))
                &&& ((wellformed && av[2] != old(self).cfg.admin_nick@) ==> (r is Ok && final(self).spec_has_user(av[0]) && *final(self) == (InspLink {
                    users: final(self).users,
                    ..*old(self)
                })))
                &&& ((wellformed && av[2] == old(self).cfg.admin_nick@)
                    ==> final(self).spec_has_user(av[0]))
            }),
    {
        let mut args: Vec<String> = Vec::new();
        let acnt = line.args.len();
        let mut ai: usize = 0;
        while ai < acnt
            invariant
                acnt == line.args@.len(),
                ai <= acnt,
                *self == *old(self),
                args@.len() == ai,
                forall|j: int| 0 <= j < ai ==> (#[trigger] args@[j])@ == line@.args[j],
            decreases acnt - ai,
        {
            args.push(line.args[ai].clone());
            ai = ai + 1;
        }
        proof {
            assert(args@.map_values(|w: String| w@) =~= line@.args);
        }
        let suffix = crate::models::clone_opt_string(&line.suffix);
        let (uuid, user) = match InspUser::new_from_uid_line(args, suffix) {
            Ok(p) => p,
            Err(e) => {
                return Err(e);
            },
        };
        let is_admin = util::string_eq(&user.nick, self.cfg.admin_nick.as_str());
        let ghost uuidv = uuid@;
        self.put_user(uuid, user);
        proof {
            assert(self@.contacts =~= old(self)@.contacts);
            assert(self.wf());
        }
        if is_admin {
            let ghost pre_pm = *self;
            let r2 = self.process_messages(now);
            proof {
                assert(pre_pm.spec_has_user(uuidv));
                let w = choose|w: int|
                    0 <= w < pre_pm@.users.len() && (#[trigger] pre_pm@.users[w]).0 == uuidv;
                assert(self@.users[w].0 == uuidv);
                assert(self.spec_has_user(uuidv));
            }
            return r2;
        }
        return Ok(());
    }
}

/// Duplicates a vector of strings.
pub fn clone_string_vec(v: &Vec<String>) -> (r: Vec<String>)
    ensures
        r@.map_values(|s: String| s@) == v@.map_values(|s: String| s@),
{
    let mut r: Vec<String> = Vec::new();
    let n = v.len();
    let mut i: usize = 0;
    while i < n
        invariant
            n == v@.len(),
            i <= n,
            r@.len() == i,
            forall|j: int| 0 <= j < i ==> (#[trigger] r@[j])@ == v@[j]@,
        decreases n - i,
    {
        r.push(v[i].clone());
        i = i + 1;
    }
    proof {
        assert(r@.map_values(|s: String| s@) =~= v@.map_values(|s: String| s@));
    }
    r
}

/// Duplicates an address value.
pub fn clone_addr(a: &PduAddr) -> (r: PduAddr)
    ensures
        r@ == a@,
{
    let r = PduAddr {
        ton: a.ton,
        npi: a.npi,
        digits: crate::models::clone_copy_vec(&a.digits),
    };
    proof {
        assert(r@ =~= a@);
    }
    r
}

} // verus!

//! The typed command bus: the command sets each consumer understands, and
//! the single-consumer queues they arrive on.

use vstd::prelude::*;
use crate::addr::{PduAddr, AddrView};
use crate::models::view_opt_string;

verus! {

/// A WhatsApp contact or group identifier.
pub struct Jid {
    pub id: String,
    pub is_group: bool,
}

#[verifier::ext_equal]
pub struct JidView {
    pub id: Seq<char>,
    pub is_group: bool,
}

impl View for Jid {
    type V = JidView;

    open spec fn view(&self) -> JidView {
        JidView { id: self.id@, is_group: self.is_group }
    }
}

impl Jid {
    pub fn duplicate(&self) -> (r: Jid)
        ensures
            r@ == self@,
    {
        Jid { id: self.id.clone(), is_group: self.is_group }
    }
}

/// The status a listed SMS carries on the modem.
#[derive(Clone, Copy, PartialEq, Eq, Structural, Debug)]
pub enum SmsStatus {
    ReceivedUnread,
    ReceivedRead,
    StoredUnsent,
    StoredSent,
}

/// One SMS as listed by the modem: its status, sender and raw PDU bytes.
pub struct SmsIncoming {
    pub status: SmsStatus,
    pub addr: PduAddr,
    pub raw_pdu: Vec<u8>,
}

#[verifier::ext_equal]
pub struct SmsIncomingView {
    pub status: SmsStatus,
    pub addr: AddrView,
    pub raw_pdu: Seq<u8>,
}

impl View for SmsIncoming {
    type V = SmsIncomingView;

    open spec fn view(&self) -> SmsIncomingView {
        SmsIncomingView { status: self.status, addr: self.addr@, raw_pdu: self.raw_pdu@ }
    }
}

/// The outcome of a finished media download job.
pub struct MediaResult {
    pub from: Jid,
    pub group: Option<i32>,
    pub mid: String,
    pub ts: i64,
    pub outcome: Result<String, String>,
}

/// Commands for the modem backend.
pub enum ModemCommand {
    DoCmgl,
    CmglComplete(Vec<SmsIncoming>),
    CmglFailed(String),
    SendMessage(PduAddr, String),
    RequestCsq,
    RequestReg,
    ForceReinit,
    UpdatePath(Option<String>),
    CommandTimeout,
    MakeContact(PduAddr),
}

#[verifier::ext_equal]
pub enum ModemCommandView {
    DoCmgl,
    CmglComplete(Seq<SmsIncomingView>),
    CmglFailed(Seq<char>),
    SendMessage(AddrView, Seq<char>),
    RequestCsq,
    RequestReg,
    ForceReinit,
    UpdatePath(Option<Seq<char>>),
    CommandTimeout,
    MakeContact(AddrView),
}

impl View for ModemCommand {
    type V = ModemCommandView;

    open spec fn view(&self) -> ModemCommandView {
        match self {
            ModemCommand::DoCmgl => ModemCommandView::DoCmgl,
            ModemCommand::CmglComplete(v) => ModemCommandView::CmglComplete(
                v@.map_values(|s: SmsIncoming| s@),
            ),
            ModemCommand::CmglFailed(e) => ModemCommandView::CmglFailed(e@),
            ModemCommand::SendMessage(a, t) => ModemCommandView::SendMessage(a@, t@),
            ModemCommand::RequestCsq => ModemCommandView::RequestCsq,
            ModemCommand::RequestReg => ModemCommandView::RequestReg,
            ModemCommand::ForceReinit => ModemCommandView::ForceReinit,
            ModemCommand::UpdatePath(p) => ModemCommandView::UpdatePath(view_opt_string(*p)),
            ModemCommand::CommandTimeout => ModemCommandView::CommandTimeout,
            ModemCommand::MakeContact(a) => ModemCommandView::MakeContact(a@),
        }
    }
}

/// Commands for the WhatsApp backend.
pub enum WhatsappCommand {
    StartRegistration,
    LogonIfSaved,
    SendGroupMessage(String, String),
    SendDirectMessage(PduAddr, String),
    GroupAssociate(Jid, String),
    GroupList,
    GroupRemove(String),
    GroupUpdateAll,
    MediaFinished(MediaResult),
    PrintAcks,
    MakeContact(PduAddr),
    SubscribePresence(PduAddr),
}

#[verifier::ext_equal]
pub enum WhatsappCommandView {
    StartRegistration,
    LogonIfSaved,
    SendGroupMessage(Seq<char>, Seq<char>),
    SendDirectMessage(AddrView, Seq<char>),
    GroupAssociate(JidView, Seq<char>),
    GroupList,
    GroupRemove(Seq<char>),
    GroupUpdateAll,
    MediaFinished(JidView, Option<i32>, Seq<char>),
    PrintAcks,
    MakeContact(AddrView),
    SubscribePresence(AddrView),
}

impl View for WhatsappCommand {
    type V = WhatsappCommandView;

    open spec fn view(&self) -> WhatsappCommandView {
        match self {
            WhatsappCommand::StartRegistration => WhatsappCommandView::StartRegistration,
            WhatsappCommand::LogonIfSaved => WhatsappCommandView::LogonIfSaved,
            WhatsappCommand::SendGroupMessage(c, t) => WhatsappCommandView::SendGroupMessage(
                c@,
                t@,
            ),
            WhatsappCommand::SendDirectMessage(a, t) => WhatsappCommandView::SendDirectMessage(
                a@,
                t@,
            ),
            WhatsappCommand::GroupAssociate(j, c) => WhatsappCommandView::GroupAssociate(j@, c@),
            WhatsappCommand::GroupList => WhatsappCommandView::GroupList,
            WhatsappCommand::GroupRemove(c) => WhatsappCommandView::GroupRemove(c@),
            WhatsappCommand::GroupUpdateAll => WhatsappCommandView::GroupUpdateAll,
            WhatsappCommand::MediaFinished(m) => WhatsappCommandView::MediaFinished(
                m.from@,
                m.group,
                m.mid@,
            ),
            WhatsappCommand::PrintAcks => WhatsappCommandView::PrintAcks,
            WhatsappCommand::MakeContact(a) => WhatsappCommandView::MakeContact(a@),
            WhatsappCommand::SubscribePresence(a) => WhatsappCommandView::SubscribePresence(a@),
        }
    }
}

/// Commands routable to one live ghost.
pub enum ContactManagerCommand {
    ProcessMessages,
    ProcessGroups,
    UpdateAway(Option<String>),
    ChangeNick(String, i32),
    SetWhatsapp(bool),
}

#[verifier::ext_equal]
pub enum ContactManagerCommandView {
    ProcessMessages,
    ProcessGroups,
    UpdateAway(Option<Seq<char>>),
    ChangeNick(Seq<char>, i32),
    SetWhatsapp(bool),
}

impl View for ContactManagerCommand {
    type V = ContactManagerCommandView;

    open spec fn view(&self) -> ContactManagerCommandView {
        match self {
            ContactManagerCommand::ProcessMessages => ContactManagerCommandView::ProcessMessages,
            ContactManagerCommand::ProcessGroups => ContactManagerCommandView::ProcessGroups,
            ContactManagerCommand::UpdateAway(t) => ContactManagerCommandView::UpdateAway(
                view_opt_string(*t),
            ),
            ContactManagerCommand::ChangeNick(n, s) => ContactManagerCommandView::ChangeNick(
                n@,
                *s,
            ),
            ContactManagerCommand::SetWhatsapp(b) => ContactManagerCommandView::SetWhatsapp(*b),
        }
    }
}

/// Commands for the ghost factory.
pub enum ContactFactoryCommand {
    ProcessMessages,
    ProcessGroups,
    ProcessAvatars,
    SetupContact(PduAddr),
    DropContact(PduAddr),
    QueryContact(PduAddr, i32),
    DropContactByNick(String),
    LoadRecipients,
    ForwardCommand(PduAddr, ContactManagerCommand),
    ForwardCommandByNick(String, ContactManagerCommand),
    SubscribePresenceByNick(String),
}

#[verifier::ext_equal]
pub enum ContactFactoryCommandView {
    ProcessMessages,
    ProcessGroups,
    ProcessAvatars,
    SetupContact(AddrView),
    DropContact(AddrView),
    QueryContact(AddrView, i32),
    DropContactByNick(Seq<char>),
    LoadRecipients,
    ForwardCommand(AddrView, ContactManagerCommandView),
    ForwardCommandByNick(Seq<char>, ContactManagerCommandView),
    SubscribePresenceByNick(Seq<char>),
}

impl View for ContactFactoryCommand {
    type V = ContactFactoryCommandView;

    open spec fn view(&self) -> ContactFactoryCommandView {
        match self {
            ContactFactoryCommand::ProcessMessages => ContactFactoryCommandView::ProcessMessages,
            ContactFactoryCommand::ProcessGroups => ContactFactoryCommandView::ProcessGroups,
            ContactFactoryCommand::ProcessAvatars => ContactFactoryCommandView::ProcessAvatars,
            ContactFactoryCommand::SetupContact(a) => ContactFactoryCommandView::SetupContact(a@),
            ContactFactoryCommand::DropContact(a) => ContactFactoryCommandView::DropContact(a@),
            ContactFactoryCommand::QueryContact(a, s) => ContactFactoryCommandView::QueryContact(
                a@,
                *s,
            ),
            ContactFactoryCommand::DropContactByNick(n) => ContactFactoryCommandView::DropContactByNick(
                n@,
            ),
            ContactFactoryCommand::LoadRecipients => ContactFactoryCommandView::LoadRecipients,
            ContactFactoryCommand::ForwardCommand(a, c) => ContactFactoryCommandView::ForwardCommand(
                a@,
                c@,
            ),
            ContactFactoryCommand::ForwardCommandByNick(n, c) => ContactFactoryCommandView::ForwardCommandByNick(
                n@,
                c@,
            ),
            ContactFactoryCommand::SubscribePresenceByNick(n) => ContactFactoryCommandView::SubscribePresenceByNick(
                n@,
            ),
        }
    }
}

/// Commands for the control bot.
pub enum ControlBotCommand {
    Log(String),
    ReportFailure(String),
    CommandResponse(String),
    ProcessGroups,
}

#[verifier::ext_equal]
pub enum ControlBotCommandView {
    Log(Seq<char>),
    ReportFailure(Seq<char>),
    CommandResponse(Seq<char>),
    ProcessGroups,
}

impl View for ControlBotCommand {
    type V = ControlBotCommandView;

    open spec fn view(&self) -> ControlBotCommandView {
        match self {
            ControlBotCommand::Log(s) => ControlBotCommandView::Log(s@),
            ControlBotCommand::ReportFailure(s) => ControlBotCommandView::ReportFailure(s@),
            ControlBotCommand::CommandResponse(s) => ControlBotCommandView::CommandResponse(s@),
            ControlBotCommand::ProcessGroups => ControlBotCommandView::ProcessGroups,
        }
    }
}

/// An unbounded single-consumer queue; pushes always succeed, pops come in
/// first-in first-out order.
pub struct CmdQueue<T> {
    items: Vec<T>,
}

impl<T: View> View for CmdQueue<T> {
    type V = Seq<T::V>;

    closed spec fn view(&self) -> Seq<T::V> {
        self.items@.map_values(|t: T| t@)
    }
}

impl<T: View> CmdQueue<T> {
    /// An empty queue.
    pub fn new() -> (r: CmdQueue<T>)
        ensures
            r@ == Seq::<T::V>::empty(),
    {
        let r = CmdQueue { items: Vec::new() };
        proof {
            assert(r@ =~= Seq::<T::V>::empty());
        }
        r
    }

    /// Appends a command; sending never blocks and never fails.
    pub fn send(&mut self, t: T)
        ensures
            final(self)@ == old(self)@.push(t@),
    {
        self.items.push(t);
        proof {
            assert(self@ =~= old(self)@.push(self.items@.last()@));
        }
    }

    /// Takes the oldest queued command, if any.
    pub fn recv(&mut self) -> (r: Option<T>)
        ensures
            old(self)@.len() == 0 ==> r is None && final(self)@ == old(self)@,
            old(self)@.len() > 0 ==> (r matches Some(t) && t@ == old(self)@[0] && final(self)@
                == old(self)@.drop_first()),
    {
        if self.items.len() == 0 {
            proof {
                assert(final(self)@ =~= old(self)@);
            }
            return None;
        }
        let t = self.items.remove(0);
        proof {
            assert(final(self)@ =~= old(self)@.drop_first());
        }
        Some(t)
    }

    /// How many commands wait.
    pub fn len(&self) -> (r: usize)
        ensures
            r == self@.len(),
    {
        self.items.len()
    }
}

/// Builds the bus: every consumer's receive end exists exactly once and is
/// taken at most once.
pub struct ChannelMaker {
    pub modem_rx: Option<CmdQueue<ModemCommand>>,
    pub cf_rx: Option<CmdQueue<ContactFactoryCommand>>,
    pub cb_rx: Option<CmdQueue<ControlBotCommand>>,
    pub wa_rx: Option<CmdQueue<WhatsappCommand>>,
}

impl ChannelMaker {
    /// Creates the four empty queues.
    pub fn new() -> (r: ChannelMaker)
        ensures
            r.modem_rx matches Some(q) && q@.len() == 0,
            r.cf_rx matches Some(q) && q@.len() == 0,
            r.cb_rx matches Some(q) && q@.len() == 0,
            r.wa_rx matches Some(q) && q@.len() == 0,
    {
        ChannelMaker {
            modem_rx: Some(CmdQueue::new()),
            cf_rx: Some(CmdQueue::new()),
            cb_rx: Some(CmdQueue::new()),
            wa_rx: Some(CmdQueue::new()),
        }
    }

    /// Hands out the modem receive end; a second take yields nothing.
    pub fn take_modem_rx(&mut self) -> (r: Option<CmdQueue<ModemCommand>>)
        ensures
            r == old(self).modem_rx,
            final(self).modem_rx is None,
            final(self).cf_rx == old(self).cf_rx,
            final(self).cb_rx == old(self).cb_rx,
            final(self).wa_rx == old(self).wa_rx,
    {
        self.modem_rx.take()
    }

    /// Hands out the ghost-factory receive end; a second take yields nothing.
    pub fn take_cf_rx(&mut self) -> (r: Option<CmdQueue<ContactFactoryCommand>>)
        ensures
            r == old(self).cf_rx,
            final(self).cf_rx is None,
            final(self).modem_rx == old(self).modem_rx,
            final(self).cb_rx == old(self).cb_rx,
            final(self).wa_rx == old(self).wa_rx,
    {
        self.cf_rx.take()
    }

    /// Hands out the control-bot receive end; a second take yields nothing.
    pub fn take_cb_rx(&mut self) -> (r: Option<CmdQueue<ControlBotCommand>>)
        ensures
            r == old(self).cb_rx,
            final(self).cb_rx is None,
            final(self).modem_rx == old(self).modem_rx,
            final(self).cf_rx == old(self).cf_rx,
            final(self).wa_rx == old(self).wa_rx,
    {
        self.cb_rx.take()
    }

    /// Hands out the WhatsApp receive end; a second take yields nothing.
    pub fn take_wa_rx(&mut self) -> (r: Option<CmdQueue<WhatsappCommand>>)
        ensures
            r == old(self).wa_rx,
            final(self).wa_rx is None,
            final(self).modem_rx == old(self).modem_rx,
            final(self).cf_rx == old(self).cf_rx,
            final(self).cb_rx == old(self).cb_rx,
    {
        self.wa_rx.take()
    }
}

} // verus!

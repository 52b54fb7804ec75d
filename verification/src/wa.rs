//! WhatsApp-side decision logic on plain values: the contact/group
//! identifier model, nickname selection for WhatsApp contacts, and the
//! rule deciding when an automatic nickname update is wanted.

use vstd::prelude::*;
use crate::addr::{PduAddr, AddrView, spec_parse_addr, parse_addr};
use crate::comm::{Jid, JidView};
use crate::models;
use crate::nick;
use crate::util;

verus! {

/// What parsing a contact or group identifier yields: the part before the
/// `@` as the id, and group standing exactly for the group domain.
pub open spec fn spec_parse_jid(s: Seq<char>) -> Option<JidView> {
    if s.contains('@') {
        let k = choose|k: int| 0 <= k < s.len() && s[k] == '@' && (forall|j: int|
            0 <= j < k ==> s[j] != '@');
        if k > 0 {
            Some(JidView { id: s.take(k), is_group: s.skip(k + 1) == "g.us"@ })
        } else {
            None
        }
    } else {
        None
    }
}

/// Parses a contact or group identifier of the form `id@domain`.
pub fn parse_jid(s: &str) -> (r: Option<Jid>)
    ensures
        match r {
            Some(j) => spec_parse_jid(s@) == Some(j@),
            None => spec_parse_jid(s@) is None,
        },
{
    let len = s.unicode_len();
    let mut k: usize = 0;
    while k < len && s.get_char(k) != '@'
        invariant
            len == s@.len(),
            k <= len,
            forall|j: int| 0 <= j < k ==> s@[j] != '@',
        decreases len - k,
    {
        k = k + 1;
    }
    if k >= len {
        proof {
            assert(!s@.contains('@')) by {
                if s@.contains('@') {
                    let w = choose|w: int| 0 <= w < s@.len() && s@[w] == '@';
                    assert(s@[w] != '@');
                }
            }
        }
        return None;
    }
    proof {
        assert(s@[k as int] == '@');
        assert(s@.contains('@'));
        let kk = choose|kk: int| 0 <= kk < s@.len() && s@[kk] == '@' && (forall|j: int|
            0 <= j < kk ==> s@[j] != '@');
        assert(kk == k as int) by {
            if kk < k as int {
                assert(s@[kk] != '@');
            } else if kk > k as int {
                assert(s@[k as int] != '@');
            }
        }
    }
    if k == 0 {
        return None;
    }
    let id = s.substring_char(0, k);
    let domain = s.substring_char(k + 1, len);
    let is_group = util::str_eq(domain, "g.us");
    proof {
        assert(domain@ =~= s@.skip(k + 1));
        assert(id@ =~= s@.take(k as int));
    }
    Some(Jid { id: id.to_owned(), is_group })
}

/// The address behind a contact identifier: its id read as a phone
/// number.  Group identifiers carry no address.
pub open spec fn spec_jid_to_address(j: JidView) -> Option<AddrView> {
    if j.is_group {
        None
    } else {
        Some(spec_parse_addr(seq!['+'] + j.id))
    }
}

/// Derives the phone address behind a contact identifier.
pub fn jid_to_address(jid: &Jid) -> (r: Option<PduAddr>)
    ensures
        match r {
            Some(a) => spec_jid_to_address(jid@) == Some(a@),
            None => spec_jid_to_address(jid@) is None,
        },
{
    if jid.is_group {
        return None;
    }
    let mut text = String::new();
    text.push('+');
    text.append(jid.id.as_str());
    proof {
        assert(text@ =~= seq!['+'] + jid@.id);
    }
    Some(parse_addr(text.as_str()))
}

/// What one WhatsApp contact record offers as name material.
pub struct WaContactNames {
    pub name: Option<String>,
    pub notify: Option<String>,
}

/// The nickname chosen for a WhatsApp contact, and where it came from:
/// the address-book name first, then the contact's own notify name, then
/// the automatic nickname derived from the address.
pub open spec fn spec_nick_for_jid(
    name: Option<Seq<char>>,
    notify: Option<Seq<char>>,
    a: AddrView,
) -> (Seq<char>, i32) {
    match name {
        Some(n) => (nick::spec_nick_of(n), models::NICKSRC_WA_CONTACT),
        None => match notify {
            Some(n) => (nick::spec_nick_of(n), models::NICKSRC_WA_NOTIFY),
            None => (nick::spec_nick_for_address(a), models::NICKSRC_AUTO),
        },
    }
}

/// Chooses the nickname and nick source for a WhatsApp contact.
pub fn get_nick_for_jid(names: &WaContactNames, addr: &PduAddr) -> (r: (String, i32))
    ensures
        (r.0@, r.1) == spec_nick_for_jid(
            models::view_opt_string(names.name),
            models::view_opt_string(names.notify),
            addr@,
        ),
{
    match &names.name {
        Some(n) => (nick::string_to_irc_nick(n.as_str()), models::NICKSRC_WA_CONTACT),
        None => match &names.notify {
            Some(n) => (nick::string_to_irc_nick(n.as_str()), models::NICKSRC_WA_NOTIFY),
            None => (nick::make_nick_for_address(addr), models::NICKSRC_AUTO),
        },
    }
}

/// Whether a freshly derived nickname should replace the stored one,
/// given where each came from: migrated nicks always give way; automatic
/// nicks give way to anything but another automatic nick; a notify-based
/// nick gives way to address-book and newer notify names; address-book
/// names track the address book.  Everything else stays.
pub open spec fn spec_should_update_nick(oldsrc: i32, newsrc: i32) -> bool {
    if oldsrc == models::NICKSRC_MIGRATED {
        true
    } else if oldsrc == models::NICKSRC_AUTO && newsrc == models::NICKSRC_AUTO {
        false
    } else if oldsrc == models::NICKSRC_AUTO {
        true
    } else if oldsrc == models::NICKSRC_WA_NOTIFY && newsrc == models::NICKSRC_WA_CONTACT {
        true
    } else if oldsrc == models::NICKSRC_WA_CONTACT && newsrc == models::NICKSRC_WA_CONTACT {
        true
    } else if oldsrc == models::NICKSRC_WA_NOTIFY && newsrc == models::NICKSRC_WA_NOTIFY {
        true
    } else {
        false
    }
}

/// Decides whether an automatic nickname update is wanted.
pub fn should_update_nick(oldsrc: i32, newsrc: i32) -> (r: bool)
    ensures
        r == spec_should_update_nick(oldsrc, newsrc),
{
    if oldsrc == models::NICKSRC_MIGRATED {
        true
    } else if oldsrc == models::NICKSRC_AUTO && newsrc == models::NICKSRC_AUTO {
        false
    } else if oldsrc == models::NICKSRC_AUTO {
        true
    } else if oldsrc == models::NICKSRC_WA_NOTIFY && newsrc == models::NICKSRC_WA_CONTACT {
        true
    } else if oldsrc == models::NICKSRC_WA_CONTACT && newsrc == models::NICKSRC_WA_CONTACT {
        true
    } else if oldsrc == models::NICKSRC_WA_NOTIFY && newsrc == models::NICKSRC_WA_NOTIFY {
        true
    } else {
        false
    }
}

/// Looks a WhatsApp contact's recipient row up, creating it with the
/// chosen nickname when it is new.  The second result says whether a row
/// was created.
pub fn get_wa_recipient(
    store: &mut crate::store::Store,
    jid: &Jid,
    names: &WaContactNames,
) -> (r: Result<(crate::models::Recipient, bool), String>)
    requires
        old(store).wf(),
        old(store).can_insert_recipient(),
    ensures
        final(store).wf(),
        jid@.is_group ==> (r is Err && *final(store) == *old(store)),
        !jid@.is_group ==> ({
            let av = spec_jid_to_address(jid@).unwrap();
            match old(store).spec_recipient_by_phone(crate::addr::spec_normalize(av)) {
                Some(rec) => r matches Ok(p) && p.0@ == rec && p.1 == false && *final(store)
                    == *old(store),
                None => r matches Ok(p) && p.1 == true && final(store)@.recipients == old(
                    store,
                )@.recipients.push(p.0@),
            }
        }),
{
    let addr = match jid_to_address(jid) {
        Some(a) => a,
        None => {
            return Err(String::from_str("group identifiers carry no address"));
        },
    };
    match store.get_recipient_by_addr_opt(&addr) {
        Some(rec) => Ok((rec, false)),
        None => {
            let (nickname, nicksrc) = get_nick_for_jid(names, &addr);
            let notify = crate::models::clone_opt_string(&names.notify);
            let rec = store.store_wa_recipient(&addr, nickname.as_str(), &notify, nicksrc);
            Ok((rec, true))
        },
    }
}

/// How far WhatsApp has acknowledged an outgoing message.
#[derive(Clone, Copy, PartialEq, Eq, Structural, Debug)]
pub enum WaAckLevel {
    PendingSend,
    Sent,
    Received,
    Read,
    Played,
}

/// One outgoing message awaiting acknowledgement.
pub struct WaAckEntry {
    pub mid: String,
    pub destination: String,
    pub summary: String,
    pub sent_ts: u64,
    pub ack_level: Option<WaAckLevel>,
    pub alerted: bool,
    pub alerted_pending: bool,
}

#[verifier::ext_equal]
pub struct WaAckEntryView {
    pub mid: Seq<char>,
    pub destination: Seq<char>,
    pub summary: Seq<char>,
    pub sent_ts: u64,
    pub ack_level: Option<WaAckLevel>,
    pub alerted: bool,
    pub alerted_pending: bool,
}

impl View for WaAckEntry {
    type V = WaAckEntryView;

    open spec fn view(&self) -> WaAckEntryView {
        WaAckEntryView {
            mid: self.mid@,
            destination: self.destination@,
            summary: self.summary@,
            sent_ts: self.sent_ts,
            ack_level: self.ack_level,
            alerted: self.alerted,
            alerted_pending: self.alerted_pending,
        }
    }
}

impl WaAckEntry {
    /// Copies the entry.
    pub fn duplicate(&self) -> (r: WaAckEntry)
        ensures
            r@ == self@,
    {
        let r = WaAckEntry {
            mid: self.mid.clone(),
            destination: self.destination.clone(),
            summary: self.summary.clone(),
            sent_ts: self.sent_ts,
            ack_level: self.ack_level,
            alerted: self.alerted,
            alerted_pending: self.alerted_pending,
        };
        proof {
            assert(r@ =~= self@);
        }
        r
    }
}

/// The views of a run of entries.
pub open spec fn eviews(v: Seq<WaAckEntry>) -> Seq<WaAckEntryView> {
    v.map_values(|e: WaAckEntry| e@)
}

/// Milliseconds since a send; zero when the clock ran backwards.
pub open spec fn spec_ack_delta(now: u64, sent: u64) -> int {
    if now >= sent {
        now - sent
    } else {
        0
    }
}

/// The alert flags one check pass leaves on an entry: an unacknowledged
/// entry past the warning age is marked alerted, a pending one past the
/// pending warning age is marked alerted for pending.
pub open spec fn spec_ack_mark(e: WaAckEntryView, now: u64, warn: u64, warn_pending: u64) -> WaAckEntryView {
    WaAckEntryView {
        alerted: e.alerted || (e.ack_level is None && spec_ack_delta(now, e.sent_ts) >= warn),
        alerted_pending: e.alerted_pending || (e.ack_level == Some(WaAckLevel::PendingSend)
            && spec_ack_delta(now, e.sent_ts) >= warn_pending),
        ..e
    }
}

/// Whether a check pass keeps an entry: unacknowledged and pending sends
/// always stay, so their fate remains visible; an acknowledged one stays
/// until the expiry age.
pub open spec fn spec_ack_keep(e: WaAckEntryView, now: u64, expiry: u64) -> bool {
    e.ack_level is None || e.ack_level == Some(WaAckLevel::PendingSend) || spec_ack_delta(
        now,
        e.sent_ts,
    ) < expiry
}

/// What one check pass leaves of a run of entries: each entry marked,
/// then kept or dropped, in order.
pub open spec fn spec_check_acks(
    s: Seq<WaAckEntryView>,
    now: u64,
    warn: u64,
    warn_pending: u64,
    expiry: u64,
) -> Seq<WaAckEntryView>
    decreases s.len(),
{
    if s.len() == 0 {
        Seq::empty()
    } else {
        let rest = spec_check_acks(s.drop_last(), now, warn, warn_pending, expiry);
        let m = spec_ack_mark(s.last(), now, warn, warn_pending);
        if spec_ack_keep(m, now, expiry) {
            rest.push(m)
        } else {
            rest
        }
    }
}

/// The ids one check pass warns about as possibly failed: entries never
/// acknowledged, past the warning age, not yet alerted.
pub open spec fn spec_ack_failures(s: Seq<WaAckEntryView>, now: u64, warn: u64) -> Seq<Seq<char>>
    decreases s.len(),
{
    if s.len() == 0 {
        Seq::empty()
    } else {
        let rest = spec_ack_failures(s.drop_last(), now, warn);
        let e = s.last();
        if e.ack_level is None && !e.alerted && spec_ack_delta(now, e.sent_ts) >= warn {
            rest.push(e.mid)
        } else {
            rest
        }
    }
}

/// The ids one check pass warns about as still pending: entries stuck at
/// the pending level past the pending warning age, not yet alerted so.
pub open spec fn spec_ack_pendings(s: Seq<WaAckEntryView>, now: u64, warn_pending: u64) -> Seq<
    Seq<char>,
>
    decreases s.len(),
{
    if s.len() == 0 {
        Seq::empty()
    } else {
        let rest = spec_ack_pendings(s.drop_last(), now, warn_pending);
        let e = s.last();
        if e.ack_level == Some(WaAckLevel::PendingSend) && !e.alerted_pending && spec_ack_delta(
            now,
            e.sent_ts,
        ) >= warn_pending {
            rest.push(e.mid)
        } else {
            rest
        }
    }
}

/// Tracks outgoing WhatsApp messages until their acknowledgements arrive,
/// and decides which of them deserve a warning on each periodic check.
pub struct WaAckTracker {
    pub entries: Vec<WaAckEntry>,
    pub ack_warn: u64,
    pub ack_warn_pending: u64,
    pub ack_expiry: u64,
}

impl WaAckTracker {
    /// Each tracked message id occurs once.
    pub open spec fn wf(&self) -> bool {
        forall|i: int, j: int|
            0 <= i < j < self.entries@.len() ==> (#[trigger] self.entries@[i]@).mid != (
            #[trigger] self.entries@[j]@).mid
    }

    /// An empty tracker under the given ages, in milliseconds: the
    /// warning age falls back to five seconds, the pending warning age
    /// to twice the warning age, the expiry age to one minute.
    pub fn new(warn_ms: Option<u64>, warn_pending_ms: Option<u64>, expiry_ms: Option<u64>) -> (r:
        WaAckTracker)
        ensures
            r.wf(),
            r.entries@.len() == 0,
            r.ack_warn == (match warn_ms {
                Some(w) => w,
                None => 5000u64,
            }),
            r.ack_warn_pending == (match warn_pending_ms {
                Some(w) => w,
                None => if r.ack_warn > u64::MAX / 2 {
                    u64::MAX
                } else {
                    (2 * r.ack_warn) as u64
                },
            }),
            r.ack_expiry == (match expiry_ms {
                Some(w) => w,
                None => 60000u64,
            }),
    {
        let warn = match warn_ms {
            Some(w) => w,
            None => 5000,
        };
        let pending = match warn_pending_ms {
            Some(w) => w,
            None => if warn > u64::MAX / 2 {
                u64::MAX
            } else {
                2 * warn
            },
        };
        let expiry = match expiry_ms {
            Some(w) => w,
            None => 60000,
        };
        WaAckTracker { entries: Vec::new(), ack_warn: warn, ack_warn_pending: pending, ack_expiry: expiry }
    }

    /// Starts tracking an outgoing message: a fresh unacknowledged entry
    /// under its id, replacing any entry the id already had.
    #[verifier::rlimit(100)]
    #[verifier::spinoff_prover]
    pub fn register_send(&mut self, mid: String, destination: String, summary: String, now_ms: u64)
        requires
            old(self).wf(),
        ensures
            final(self).wf(),
            *final(self) == (WaAckTracker { entries: final(self).entries, ..*old(self) }),
            eviews(final(self).entries@) == ({
                let ev = WaAckEntryView {
                    mid: mid@,
                    destination: destination@,
                    summary: summary@,
                    sent_ts: now_ms,
                    ack_level: None::<WaAckLevel>,
                    alerted: false,
                    alerted_pending: false,
                };
                if exists|i: int|
                    0 <= i < old(self).entries@.len() && (#[trigger] old(self).entries@[i]@).mid
                        == mid@ {
                    eviews(old(self).entries@).update(
                        choose|i: int|
                            0 <= i < old(self).entries@.len() && (
                            #[trigger] old(self).entries@[i]@).mid == mid@ && forall|j: int|
                                0 <= j < i ==> (#[trigger] old(self).entries@[j]@).mid != mid@,
                        ev,
                    )
                } else {
                    eviews(old(self).entries@).push(ev)
                }
            }),
    {
        let ghost evg = WaAckEntryView {
            mid: mid@,
            destination: destination@,
            summary: summary@,
            sent_ts: now_ms,
            ack_level: None::<WaAckLevel>,
            alerted: false,
            alerted_pending: false,
        };
        let entry = WaAckEntry {
            mid,
            destination,
            summary,
            sent_ts: now_ms,
            ack_level: None,
            alerted: false,
            alerted_pending: false,
        };
        proof {
            assert(entry@ =~= evg);
        }
        match self.find_entry_index(entry.mid.as_str()) {
            Some(i) => {
                let ghost before = eviews(self.entries@);
                proof {
                    assert(before[i as int].mid == entry@.mid);
                }
                self.entries.set(i, entry);
                proof {
                    assert(eviews(self.entries@) =~= before.update(
                        i as int,
                        self.entries@[i as int]@,
                    ));
                    let w = choose|w: int|
                        0 <= w < old(self).entries@.len() && (#[trigger] old(self).entries@[w]@).mid
                            == evg.mid && forall|j: int|
                            0 <= j < w ==> (#[trigger] old(self).entries@[j]@).mid != evg.mid;
                    assert(w == i as int) by {
                        if w < i as int {
                            assert(old(self).entries@[w]@.mid != before[i as int].mid);
                        } else if w > i as int {
                            assert(old(self).entries@[i as int]@.mid != before[i as int].mid);
                        }
                    }
                    assert(self.entries@[i as int]@.mid == old(self).entries@[i as int]@.mid);
                    assert forall|a: int, b: int|
                        0 <= a < b < self.entries@.len() implies (#[trigger] self.entries@[a]@).mid
                        != (#[trigger] self.entries@[b]@).mid by {
                        if a == i as int {
                            assert(self.entries@[b]@ == old(self).entries@[b]@);
                        } else if b == i as int {
                            assert(self.entries@[a]@ == old(self).entries@[a]@);
                        } else {
                            assert(self.entries@[a]@ == old(self).entries@[a]@);
                            assert(self.entries@[b]@ == old(self).entries@[b]@);
                        }
                    }
                }
            },
            None => {
                let ghost ev = entry@;
                self.entries.push(entry);
                proof {
                    assert(eviews(self.entries@) =~= eviews(old(self).entries@).push(ev));
                    assert forall|a: int, b: int|
                        0 <= a < b < self.entries@.len() implies (#[trigger] self.entries@[a]@).mid
                        != (#[trigger] self.entries@[b]@).mid by {
                        if b < self.entries@.len() - 1 {
                            assert(self.entries@[a]@ == old(self).entries@[a]@);
                            assert(self.entries@[b]@ == old(self).entries@[b]@);
                        } else {
                            assert(self.entries@[a]@ == old(self).entries@[a]@);
                        }
                    }
                }
            },
        }
    }

    /// The position of the entry tracking an id.
    fn find_entry_index(&self, mid: &str) -> (r: Option<usize>)
        ensures
            match r {
                Some(i) => i < self.entries@.len() && self.entries@[i as int]@.mid == mid@
                    && forall|j: int|
                    0 <= j < i ==> (#[trigger] self.entries@[j]@).mid != mid@,
                None => forall|j: int|
                    0 <= j < self.entries@.len() ==> (#[trigger] self.entries@[j]@).mid != mid@,
            },
    {
        let cnt = self.entries.len();
        let mut i: usize = 0;
        while i < cnt
            invariant
                cnt == self.entries@.len(),
                i <= cnt,
                forall|j: int| 0 <= j < i ==> (#[trigger] self.entries@[j]@).mid != mid@,
            decreases cnt - i,
        {
            if util::string_eq(&self.entries[i].mid, mid) {
                return Some(i);
            }
            i = i + 1;
        }
        None
    }

    /// Records an acknowledgement: the entry under the id moves to the
    /// given level; an unknown id changes nothing.
    #[verifier::rlimit(100)]
    #[verifier::spinoff_prover]
    pub fn on_message_ack(&mut self, mid: &str, level: WaAckLevel)
        requires
            old(self).wf(),
        ensures
            final(self).wf(),
            *final(self) == (WaAckTracker { entries: final(self).entries, ..*old(self) }),
            eviews(final(self).entries@) == (if exists|i: int|
                0 <= i < old(self).entries@.len() && (#[trigger] old(self).entries@[i]@).mid
                    == mid@ {
                let i = choose|i: int|
                    0 <= i < old(self).entries@.len() && (#[trigger] old(self).entries@[i]@).mid
                        == mid@ && forall|j: int|
                        0 <= j < i ==> (#[trigger] old(self).entries@[j]@).mid != mid@;
                eviews(old(self).entries@).update(
                    i,
                    WaAckEntryView { ack_level: Some(level), ..old(self).entries@[i]@ },
                )
            } else {
                eviews(old(self).entries@)
            }),
    {
        match self.find_entry_index(mid) {
            None => {},
            Some(i) => {
                let ghost before = eviews(self.entries@);
                let mut e = self.entries[i].duplicate();
                e.ack_level = Some(level);
                proof {
                    assert(e@ =~= (WaAckEntryView {
                        ack_level: Some(level),
                        ..old(self).entries@[i as int]@
                    }));
                }
                self.entries.set(i, e);
                proof {
                    assert(eviews(self.entries@) =~= before.update(
                        i as int,
                        WaAckEntryView { ack_level: Some(level), ..old(self).entries@[i as int]@ },
                    ));
                    let w = choose|w: int|
                        0 <= w < old(self).entries@.len() && (#[trigger] old(self).entries@[w]@).mid
                            == mid@ && forall|j: int|
                            0 <= j < w ==> (#[trigger] old(self).entries@[j]@).mid != mid@;
                    assert(w == i as int) by {
                        if w < i as int {
                            assert(old(self).entries@[w]@.mid != mid@);
                        } else if w > i as int {
                            assert(old(self).entries@[i as int]@.mid != mid@);
                        }
                    }
                    assert(self.entries@[i as int]@.mid == old(self).entries@[i as int]@.mid);
                    assert forall|a: int, b: int|
                        0 <= a < b < self.entries@.len() implies (#[trigger] self.entries@[a]@).mid
                        != (#[trigger] self.entries@[b]@).mid by {
                        if a == i as int {
                            assert(self.entries@[b]@ == old(self).entries@[b]@);
                        } else if b == i as int {
                            assert(self.entries@[a]@ == old(self).entries@[a]@);
                        } else {
                            assert(self.entries@[a]@ == old(self).entries@[a]@);
                            assert(self.entries@[b]@ == old(self).entries@[b]@);
                        }
                    }
                }
            },
        }
    }

    /// Runs one periodic check: marks the entries that now deserve a
    /// warning, drops the acknowledged entries past the expiry age, and
    /// returns the ids to warn about, failed and pending apart.
    #[verifier::rlimit(100)]
    #[verifier::spinoff_prover]
    pub fn check_acks(&mut self, now_ms: u64) -> (r: (Vec<String>, Vec<String>))
        requires
            old(self).wf(),
        ensures
            final(self).wf(),
            *final(self) == (WaAckTracker { entries: final(self).entries, ..*old(self) }),
            eviews(final(self).entries@) == spec_check_acks(
                eviews(old(self).entries@),
                now_ms,
                old(self).ack_warn,
                old(self).ack_warn_pending,
                old(self).ack_expiry,
            ),
            r.0@.map_values(|s: String| s@) == spec_ack_failures(
                eviews(old(self).entries@),
                now_ms,
                old(self).ack_warn,
            ),
            r.1@.map_values(|s: String| s@) == spec_ack_pendings(
                eviews(old(self).entries@),
                now_ms,
                old(self).ack_warn_pending,
            ),
    {
        let mut kept: Vec<WaAckEntry> = Vec::new();
        let mut failed: Vec<String> = Vec::new();
        let mut pending: Vec<String> = Vec::new();
        let cnt = self.entries.len();
        let mut i: usize = 0;
        proof {
            assert(eviews(self.entries@).subrange(0, 0) =~= Seq::<WaAckEntryView>::empty());
        }
        while i < cnt
            invariant
                cnt == self.entries@.len(),
                i <= cnt,
                *self == *old(self),
                old(self).wf(),
                eviews(kept@) == spec_check_acks(
                    eviews(old(self).entries@).subrange(0, i as int),
                    now_ms,
                    old(self).ack_warn,
                    old(self).ack_warn_pending,
                    old(self).ack_expiry,
                ),
                failed@.map_values(|s: String| s@) == spec_ack_failures(
                    eviews(old(self).entries@).subrange(0, i as int),
                    now_ms,
                    old(self).ack_warn,
                ),
                pending@.map_values(|s: String| s@) == spec_ack_pendings(
                    eviews(old(self).entries@).subrange(0, i as int),
                    now_ms,
                    old(self).ack_warn_pending,
                ),
                forall|k: int|
                    0 <= k < kept@.len() ==> exists|j: int|
                        0 <= j < i && (#[trigger] kept@[k]@).mid == old(self).entries@[j]@.mid,
                forall|a: int, b: int|
                    0 <= a < b < kept@.len() ==> (#[trigger] kept@[a]@).mid != (
                    #[trigger] kept@[b]@).mid,
            decreases cnt - i,
        {
            proof {
                assert(eviews(old(self).entries@).subrange(0, i + 1).drop_last()
                    =~= eviews(old(self).entries@).subrange(0, i as int));
                assert(eviews(old(self).entries@).subrange(0, i + 1).last()
                    == old(self).entries@[i as int]@);
            }
            let e = &self.entries[i];
            let delta: u64 = if now_ms >= e.sent_ts {
                now_ms - e.sent_ts
            } else {
                0
            };
            let is_unacked = e.ack_level.is_none();
            let is_pending = match e.ack_level {
                Some(WaAckLevel::PendingSend) => true,
                _ => false,
            };
            let mut m = e.duplicate();
            if is_unacked && delta >= self.ack_warn {
                if !m.alerted {
                    failed.push(m.mid.clone());
                }
                m.alerted = true;
            }
            if is_pending && delta >= self.ack_warn_pending {
                if !m.alerted_pending {
                    pending.push(m.mid.clone());
                }
                m.alerted_pending = true;
            }
            proof {
                assert(m@ =~= spec_ack_mark(
                    old(self).entries@[i as int]@,
                    now_ms,
                    old(self).ack_warn,
                    old(self).ack_warn_pending,
                ));
                assert(failed@.map_values(|s: String| s@) =~= spec_ack_failures(
                    eviews(old(self).entries@).subrange(0, i + 1),
                    now_ms,
                    old(self).ack_warn,
                ));
                assert(pending@.map_values(|s: String| s@) =~= spec_ack_pendings(
                    eviews(old(self).entries@).subrange(0, i + 1),
                    now_ms,
                    old(self).ack_warn_pending,
                ));
            }
            let keep = is_unacked || is_pending || delta < self.ack_expiry;
            if keep {
                let ghost kept0 = kept@;
                kept.push(m);
                proof {
                    assert(eviews(kept@) =~= eviews(kept0).push(
                        kept@[kept@.len() - 1]@,
                    ));
                    assert forall|a: int, b: int|
                        0 <= a < b < kept@.len() implies (#[trigger] kept@[a]@).mid != (
                    #[trigger] kept@[b]@).mid by {
                        if b == kept@.len() - 1 {
                            let j = choose|j: int|
                                0 <= j < i && (#[trigger] kept@[a]@).mid == old(self).entries@[j]@.mid;
                            assert(old(self).entries@[j]@.mid != old(self).entries@[i as int]@.mid);
                        } else {
                            assert(kept@[a]@ == kept0[a]@);
                            assert(kept@[b]@ == kept0[b]@);
                        }
                    }
                }
            }
            proof {
                assert(eviews(kept@) =~= spec_check_acks(
                    eviews(old(self).entries@).subrange(0, i + 1),
                    now_ms,
                    old(self).ack_warn,
                    old(self).ack_warn_pending,
                    old(self).ack_expiry,
                ));
            }
            i = i + 1;
        }
        proof {
            assert(eviews(old(self).entries@).subrange(0, cnt as int) =~= eviews(
                old(self).entries@,
            ));
        }
        self.entries = kept;
        (failed, pending)
    }
}

} // verus!

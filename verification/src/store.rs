//! The message store: recipients, queued messages, bridged groups and seen
//! WhatsApp message ids, with ordered message retrieval.
//!
//! Rows live in memory; every operation is a self-contained update.  The
//! well-formedness invariant keeps ids unique, phone numbers unique among
//! recipients, and the message queue sorted by (timestamp, id).

use vstd::prelude::*;
use crate::addr::{PduAddr, spec_normalize, normalize_address};
use crate::models::{
    Recipient, RecipientView, Message, MessageView, Group, GroupView, clone_opt_string,
    clone_copy_vec, view_opt_string, NICKSRC_AUTO, SOURCE_SMS, SOURCE_WA,
};

verus! {

/// The first match for a predicate, scanning left to right.
pub open spec fn find_first<A>(s: Seq<A>, p: spec_fn(A) -> bool) -> Option<A>
    decreases s.len(),
{
    if s.len() == 0 {
        None
    } else if p(s[0]) {
        Some(s[0])
    } else {
        find_first(s.drop_first(), p)
    }
}

/// A found element satisfies the predicate and nothing earlier does.
pub proof fn lemma_find_first_ensures<A>(s: Seq<A>, p: spec_fn(A) -> bool)
    ensures
        match find_first(s, p) {
            Some(x) => exists|i: int|
                0 <= i < s.len() && s[i] == x && p(x) && forall|j: int| 0 <= j < i ==> !p(#[trigger] s[j]),
            None => forall|j: int| 0 <= j < s.len() ==> !p(#[trigger] s[j]),
        },
    decreases s.len(),
{
    if s.len() > 0 {
        if p(s[0]) {
        } else {
            lemma_find_first_ensures(s.drop_first(), p);
            match find_first(s.drop_first(), p) {
                Some(x) => {
                    let i = choose|i: int|
                        0 <= i < s.drop_first().len() && s.drop_first()[i] == x && p(x) && forall|
                            j: int,
                        | 0 <= j < i ==> !p(#[trigger] s.drop_first()[j]);
                    assert(s[i + 1] == x);
                    assert forall|j: int| 0 <= j < i + 1 implies !p(#[trigger] s[j]) by {
                        if j > 0 {
                            assert(s.drop_first()[j - 1] == s[j]);
                        }
                    }
                },
                None => {
                    assert forall|j: int| 0 <= j < s.len() implies !p(#[trigger] s[j]) by {
                        if j > 0 {
                            assert(s.drop_first()[j - 1] == s[j]);
                        }
                    }
                },
            }
        }
    }
}

/// A filtered sorted sequence stays sorted.
pub proof fn lemma_filter_sorted<A>(s: Seq<A>, pred: spec_fn(A) -> bool, lt: spec_fn(A, A) -> bool)
    requires
        forall|i: int, j: int| 0 <= i < j < s.len() ==> lt(#[trigger] s[i], #[trigger] s[j]),
    ensures
        forall|i: int, j: int|
            0 <= i < j < s.filter(pred).len() ==> lt(
                #[trigger] s.filter(pred)[i],
                #[trigger] s.filter(pred)[j],
            ),
    decreases s.len(),
{
    reveal(Seq::filter);
    if s.len() > 0 {
        let head = s.drop_last();
        lemma_filter_sorted(head, pred, lt);
        let g = head.filter(pred);
        if pred(s.last()) {
            assert(s.filter(pred) == g.push(s.last()));
            assert forall|i: int, j: int|
                0 <= i < j < s.filter(pred).len() implies lt(
                #[trigger] s.filter(pred)[i],
                #[trigger] s.filter(pred)[j],
            ) by {
                if j < g.len() {
                    assert(lt(g[i], g[j]));
                } else {
                    lemma_filter_member(head, pred, i);
                    let k = choose|k: int| 0 <= k < head.len() && head[k] == g[i];
                    assert(lt(s[k], s.last()));
                }
            }
        }
    }
}

/// Membership of a filtered element in the original sequence.
pub proof fn lemma_filter_member<A>(s: Seq<A>, pred: spec_fn(A) -> bool, i: int)
    requires
        0 <= i < s.filter(pred).len(),
    ensures
        exists|k: int| 0 <= k < s.len() && s[k] == s.filter(pred)[i],
    decreases s.len(),
{
    reveal(Seq::filter);
    if s.len() > 0 {
        let head = s.drop_last();
        if pred(s.last()) && i == s.filter(pred).len() - 1 && s.filter(pred).last() == s.last() {
            assert(s[s.len() - 1] == s.filter(pred)[i]);
        } else {
            lemma_filter_member(head, pred, i);
            let k = choose|k: int| 0 <= k < head.len() && head[k] == head.filter(pred)[i];
            assert(s[k] == s.filter(pred)[i]);
        }
    }
}

/// Prefix chains compose.
pub proof fn lemma_prefix_trans<A>(a: Seq<A>, b: Seq<A>, c: Seq<A>)
    requires
        a.is_prefix_of(b),
        b.is_prefix_of(c),
    ensures
        a.is_prefix_of(c),
{
    assert forall|k: int| 0 <= k < a.len() implies c.subrange(0, a.len() as int)[k] == a[k] by {
        assert(a[k] == b.subrange(0, b.len() as int)[k]);
        assert(b[k] == c.subrange(0, b.len() as int)[k]);
    }
    assert(a =~= c.subrange(0, a.len() as int));
}

/// An element of a prefix is an element of the whole.
pub proof fn lemma_prefix_keeps_contains<A>(a: Seq<A>, b: Seq<A>, x: A)
    requires
        a.is_prefix_of(b),
        a.contains(x),
    ensures
        b.contains(x),
{
    let k = choose|k: int| 0 <= k < a.len() && a[k] == x;
    assert(b[k] == a.subrange(0, a.len() as int)[k]);
}

/// Two pointwise-equal predicates filter identically.
pub proof fn lemma_filter_ptwise<A>(s: Seq<A>, p1: spec_fn(A) -> bool, p2: spec_fn(A) -> bool)
    requires
        forall|x: A| #[trigger] p1(x) == p2(x),
    ensures
        s.filter(p1) == s.filter(p2),
    decreases s.len(),
{
    reveal(Seq::filter);
    if s.len() > 0 {
        lemma_filter_ptwise(s.drop_last(), p1, p2);
        assert(p1(s.last()) == p2(s.last()));
        assert(s.filter(p1) =~= s.filter(p2));
    }
}

/// Filtering with a predicate every element meets changes nothing.
pub proof fn lemma_filter_all_true<A>(s: Seq<A>, pred: spec_fn(A) -> bool)
    requires
        forall|i: int| 0 <= i < s.len() ==> pred(#[trigger] s[i]),
    ensures
        s.filter(pred) == s,
    decreases s.len(),
{
    reveal(Seq::filter);
    if s.len() > 0 {
        lemma_filter_all_true(s.drop_last(), pred);
        assert(s.filter(pred) =~= s);
    }
}

/// The message delivery order: ascending timestamp, then ascending id.
pub open spec fn msg_before(a: MessageView, b: MessageView) -> bool {
    a.ts < b.ts || (a.ts == b.ts && a.id < b.id)
}

pub open spec fn rviews(v: Seq<Recipient>) -> Seq<RecipientView> {
    v.map_values(|r: Recipient| r@)
}

pub open spec fn mviews(v: Seq<Message>) -> Seq<MessageView> {
    v.map_values(|m: Message| m@)
}

pub open spec fn gviews(v: Seq<Group>) -> Seq<GroupView> {
    v.map_values(|g: Group| g@)
}

pub open spec fn gviews_r(v: Seq<Recipient>) -> Seq<RecipientView> {
    v.map_values(|r: Recipient| r@)
}

/// A store operation that could not be applied.
#[derive(Clone, Copy, PartialEq, Eq, Structural, Debug)]
pub enum StoreError {
    NotFound,
}

impl StoreError {
    pub fn describe(&self) -> (r: &'static str)
        ensures
            r@ == "no rows affected"@,
    {
        "no rows affected"
    }
}

pub struct Store {
    recipients: Vec<Recipient>,
    messages: Vec<Message>,
    groups: Vec<Group>,
    wa_msgids: Vec<String>,
    next_recipient_id: i32,
    next_message_id: i32,
    next_group_id: i32,
}

#[verifier::ext_equal]
pub struct StoreView {
    pub recipients: Seq<RecipientView>,
    pub messages: Seq<MessageView>,
    pub groups: Seq<GroupView>,
    pub wa_msgids: Seq<Seq<char>>,
    pub next_recipient_id: i32,
    pub next_message_id: i32,
    pub next_group_id: i32,
}

impl View for Store {
    type V = StoreView;

    closed spec fn view(&self) -> StoreView {
        StoreView {
            recipients: rviews(self.recipients@),
            messages: mviews(self.messages@),
            groups: gviews(self.groups@),
            wa_msgids: self.wa_msgids@.map_values(|s: String| s@),
            next_recipient_id: self.next_recipient_id,
            next_message_id: self.next_message_id,
            next_group_id: self.next_group_id,
        }
    }
}

impl Store {
    /// Ids are unique and below their counters, phone numbers are unique,
    /// and the message queue is sorted by (timestamp, id).
    pub open spec fn wf(&self) -> bool {
        &&& forall|i: int, j: int|
            0 <= i < j < self@.recipients.len() ==> self@.recipients[i].id != self@.recipients[j].id
                && self@.recipients[i].phone_number != self@.recipients[j].phone_number
        &&& forall|i: int|
            0 <= i < self@.recipients.len() ==> (#[trigger] self@.recipients[i]).id
                < self@.next_recipient_id
        &&& forall|i: int, j: int|
            0 <= i < j < self@.messages.len() ==> msg_before(
                #[trigger] self@.messages[i],
                #[trigger] self@.messages[j],
            )
        &&& forall|i: int|
            0 <= i < self@.messages.len() ==> (#[trigger] self@.messages[i]).id
                < self@.next_message_id
        &&& forall|i: int|
            0 <= i < self@.messages.len() ==> ((#[trigger] self@.messages[i]).pdu is Some
                || self@.messages[i].text is Some)
        &&& forall|i: int, j: int|
            0 <= i < j < self@.groups.len() ==> self@.groups[i].id != self@.groups[j].id
        &&& forall|i: int|
            0 <= i < self@.groups.len() ==> (#[trigger] self@.groups[i]).id < self@.next_group_id
    }

    /// An empty store.
    pub fn new() -> (r: Store)
        ensures
            r.wf(),
            r@.recipients.len() == 0,
            r@.messages.len() == 0,
            r@.groups.len() == 0,
            r@.wa_msgids.len() == 0,
    {
        Store {
            recipients: Vec::new(),
            messages: Vec::new(),
            groups: Vec::new(),
            wa_msgids: Vec::new(),
            next_recipient_id: 1,
            next_message_id: 1,
            next_group_id: 1,
        }
    }

    /// Whether a recipient row can still be inserted.
    pub open spec fn can_insert_recipient(&self) -> bool {
        self@.next_recipient_id < i32::MAX
    }

    /// Whether a message row can still be inserted.
    pub open spec fn can_insert_message(&self) -> bool {
        self@.next_message_id < i32::MAX
    }

    /// Whether a group row can still be inserted.
    pub open spec fn can_insert_group(&self) -> bool {
        self@.next_group_id < i32::MAX
    }

    /// What a recipient lookup by stored phone number yields.
    pub open spec fn spec_recipient_by_phone(&self, num: Seq<char>) -> Option<RecipientView> {
        find_first(self@.recipients, |r: RecipientView| r.phone_number == num)
    }

    /// Looks a recipient up by address.
    pub fn get_recipient_by_addr_opt(&self, addr: &PduAddr) -> (r: Option<Recipient>)
        ensures
            match r {
                Some(x) => self.spec_recipient_by_phone(spec_normalize(addr@)) == Some(x@),
                None => self.spec_recipient_by_phone(spec_normalize(addr@)) is None,
            },
    {
        let num = normalize_address(addr);
        self.get_recipient_by_phone_str(&num)
    }

    /// Looks a recipient up by its stored phone-number string.
    pub fn get_recipient_by_phone_str(&self, num: &String) -> (r: Option<Recipient>)
        ensures
            match r {
                Some(x) => self.spec_recipient_by_phone(num@) == Some(x@),
                None => self.spec_recipient_by_phone(num@) is None,
            },
    {
        let ghost p = |r: RecipientView| r.phone_number == num@;
        let n = self.recipients.len();
        let mut i: usize = 0;
        proof {
            assert(self@.recipients.skip(0) =~= self@.recipients);
        }
        while i < n
            invariant
                n == self.recipients@.len(),
                i <= n,
                p == (|r: RecipientView| r.phone_number == num@),
                find_first(self@.recipients, p) == find_first(self@.recipients.skip(i as int), p),
            decreases n - i,
        {
            proof {
                assert(self@.recipients.skip(i as int)[0] == self@.recipients[i as int]);
                assert(self@.recipients.skip(i as int).drop_first() =~= self@.recipients.skip(
                    i + 1,
                ));
            }
            if crate::util::string_eq(&self.recipients[i].phone_number, num.as_str()) {
                proof {
                    assert(p(self@.recipients[i as int]));
                }
                return Some(self.recipients[i].duplicate());
            }
            proof {
                assert(!p(self@.recipients[i as int]));
            }
            i = i + 1;
        }
        proof {
            assert(self@.recipients.skip(n as int) =~= Seq::<RecipientView>::empty());
        }
        None
    }

    /// A phone-number lookup returns a row bearing exactly that number,
    /// or misses because no row bears it.
    pub proof fn lemma_recipient_by_phone(&self, num: Seq<char>)
        ensures
            match self.spec_recipient_by_phone(num) {
                Some(rec) => rec.phone_number == num && exists|i: int|
                    0 <= i < self@.recipients.len() && #[trigger] self@.recipients[i] == rec,
                None => forall|i: int|
                    0 <= i < self@.recipients.len() ==> (#[trigger] self@.recipients[i]).phone_number != num,
            },
    {
        lemma_find_first_ensures(self@.recipients, |r: RecipientView| r.phone_number == num);
        match self.spec_recipient_by_phone(num) {
            Some(rec) => {
                let i = choose|i: int|
                    0 <= i < self@.recipients.len() && self@.recipients[i] == rec && (|r: RecipientView| r.phone_number == num)(rec) && forall|j: int|
                        0 <= j < i ==> !(|r: RecipientView| r.phone_number == num)(
                            #[trigger] self@.recipients[j],
                        );
                assert(self@.recipients[i] == rec);
            },
            None => {},
        }
    }

    /// What a recipient lookup by nick yields.    /// What a recipient lookup by nick yields.
    pub open spec fn spec_recipient_by_nick(&self, nick: Seq<char>) -> Option<RecipientView> {
        find_first(self@.recipients, |r: RecipientView| r.nick == nick)
    }

    /// Looks a recipient up by nickname.
    pub fn get_recipient_by_nick_opt(&self, n: &str) -> (r: Option<Recipient>)
        ensures
            match r {
                Some(x) => self.spec_recipient_by_nick(n@) == Some(x@),
                None => self.spec_recipient_by_nick(n@) is None,
            },
    {
        let ghost p = |r: RecipientView| r.nick == n@;
        let cnt = self.recipients.len();
        let mut i: usize = 0;
        proof {
            assert(self@.recipients.skip(0) =~= self@.recipients);
        }
        while i < cnt
            invariant
                cnt == self.recipients@.len(),
                i <= cnt,
                p == (|r: RecipientView| r.nick == n@),
                find_first(self@.recipients, p) == find_first(self@.recipients.skip(i as int), p),
            decreases cnt - i,
        {
            proof {
                assert(self@.recipients.skip(i as int)[0] == self@.recipients[i as int]);
                assert(self@.recipients.skip(i as int).drop_first() =~= self@.recipients.skip(
                    i + 1,
                ));
            }
            if crate::util::string_eq(&self.recipients[i].nick, n) {
                proof {
                    assert(p(self@.recipients[i as int]));
                }
                return Some(self.recipients[i].duplicate());
            }
            proof {
                assert(!p(self@.recipients[i as int]));
            }
            i = i + 1;
        }
        proof {
            assert(self@.recipients.skip(cnt as int) =~= Seq::<RecipientView>::empty());
        }
        None
    }

    /// What a recipient lookup by row id yields.
    pub open spec fn spec_recipient_by_id(&self, id: i32) -> Option<RecipientView> {
        find_first(self@.recipients, |r: RecipientView| r.id == id)
    }

    /// Looks a recipient up by row id.
    pub fn get_recipient_by_id_opt(&self, id: i32) -> (r: Option<Recipient>)
        ensures
            match r {
                Some(x) => self.spec_recipient_by_id(id) == Some(x@),
                None => self.spec_recipient_by_id(id) is None,
            },
    {
        let ghost p = |r: RecipientView| r.id == id;
        let cnt = self.recipients.len();
        let mut i: usize = 0;
        proof {
            assert(self@.recipients.skip(0) =~= self@.recipients);
        }
        while i < cnt
            invariant
                cnt == self.recipients@.len(),
                i <= cnt,
                p == (|r: RecipientView| r.id == id),
                find_first(self@.recipients, p) == find_first(self@.recipients.skip(i as int), p),
            decreases cnt - i,
        {
            proof {
                assert(self@.recipients.skip(i as int)[0] == self@.recipients[i as int]);
                assert(self@.recipients.skip(i as int).drop_first() =~= self@.recipients.skip(
                    i + 1,
                ));
            }
            if self.recipients[i].id == id {
                proof {
                    assert(p(self@.recipients[i as int]));
                }
                return Some(self.recipients[i].duplicate());
            }
            proof {
                assert(!p(self@.recipients[i as int]));
            }
            i = i + 1;
        }
        proof {
            assert(self@.recipients.skip(cnt as int) =~= Seq::<RecipientView>::empty());
        }
        None
    }

    /// Copies out every recipient row, in storage order.
    pub fn get_all_recipients(&self) -> (r: Vec<Recipient>)
        ensures
            rviews(r@) == self@.recipients,
    {
        let cnt = self.recipients.len();
        let mut out: Vec<Recipient> = Vec::new();
        let mut i: usize = 0;
        while i < cnt
            invariant
                cnt == self.recipients@.len(),
                i <= cnt,
                out@.len() == i,
                forall|j: int| 0 <= j < i ==> (#[trigger] out@[j])@ == self.recipients@[j]@,
            decreases cnt - i,
        {
            out.push(self.recipients[i].duplicate());
            i = i + 1;
        }
        proof {
            assert(rviews(out@) =~= self@.recipients);
        }
        out
    }

    /// Copies out every recipient row whose nick source matches.
    pub fn get_recipients_with_nicksrc(&self, ns: i32) -> (r: Vec<Recipient>)
        ensures
            rviews(r@) == self@.recipients.filter(|x: RecipientView| x.nicksrc == ns),
    {
        let ghost p = |x: RecipientView| x.nicksrc == ns;
        let cnt = self.recipients.len();
        let mut out: Vec<Recipient> = Vec::new();
        let mut i: usize = 0;
        proof {
            reveal(Seq::filter);
        }
        while i < cnt
            invariant
                cnt == self.recipients@.len(),
                i <= cnt,
                p == (|x: RecipientView| x.nicksrc == ns),
                rviews(out@) == self@.recipients.subrange(0, i as int).filter(p),
            decreases cnt - i,
        {
            proof {
                reveal(Seq::filter);
                assert(self@.recipients.subrange(0, i + 1).drop_last() == self@.recipients.subrange(
                    0,
                    i as int,
                ));
                assert(self@.recipients.subrange(0, i + 1).last() == self@.recipients[i as int]);
            }
            if self.recipients[i].nicksrc == ns {
                out.push(self.recipients[i].duplicate());
            }
            i = i + 1;
            proof {
                assert(rviews(out@) =~= self@.recipients.subrange(0, i as int).filter(p));
            }
        }
        proof {
            assert(self@.recipients.subrange(0, cnt as int) == self@.recipients);
        }
        out
    }

    /// Inserts a fresh SMS recipient row with an automatic nickname.
    pub fn store_recipient(&mut self, addr: &PduAddr, nick: &str) -> (r: Recipient)
        requires
            old(self).wf(),
            old(self).can_insert_recipient(),
            old(self).spec_recipient_by_phone(spec_normalize(addr@)) is None,
        ensures
            final(self).wf(),
            r@ == (RecipientView {
                id: old(self)@.next_recipient_id,
                phone_number: spec_normalize(addr@),
                nick: nick@,
                whatsapp: false,
                avatar_url: None,
                notify: None,
                nicksrc: NICKSRC_AUTO,
            }),
            final(self)@.recipients == old(self)@.recipients.push(r@),
            final(self)@.messages == old(self)@.messages,
            final(self)@.groups == old(self)@.groups,
            final(self)@.wa_msgids == old(self)@.wa_msgids,
            final(self)@.next_message_id == old(self)@.next_message_id,
            final(self)@.next_group_id == old(self)@.next_group_id,
    {
        self.insert_recipient(addr, nick, false, None, NICKSRC_AUTO)
    }

    /// Inserts a fresh WhatsApp recipient row.
    pub fn store_wa_recipient(&mut self, addr: &PduAddr, nick: &str, notify: &Option<String>, nicksrc: i32) -> (r:
        Recipient)
        requires
            old(self).wf(),
            old(self).can_insert_recipient(),
            old(self).spec_recipient_by_phone(spec_normalize(addr@)) is None,
        ensures
            final(self).wf(),
            r@ == (RecipientView {
                id: old(self)@.next_recipient_id,
                phone_number: spec_normalize(addr@),
                nick: nick@,
                whatsapp: true,
                avatar_url: None,
                notify: view_opt_string(*notify),
                nicksrc: nicksrc,
            }),
            final(self)@.recipients == old(self)@.recipients.push(r@),
            final(self)@.messages == old(self)@.messages,
            final(self)@.groups == old(self)@.groups,
            final(self)@.wa_msgids == old(self)@.wa_msgids,
            final(self)@.next_message_id == old(self)@.next_message_id,
            final(self)@.next_group_id == old(self)@.next_group_id,
    {
        self.insert_recipient(addr, nick, true, clone_opt_string(notify), nicksrc)
    }

    fn insert_recipient(&mut self, addr: &PduAddr, nick: &str, whatsapp: bool, notify: Option<String>, nicksrc: i32) -> (r:
        Recipient)
        requires
            old(self).wf(),
            old(self).can_insert_recipient(),
            old(self).spec_recipient_by_phone(spec_normalize(addr@)) is None,
        ensures
            final(self).wf(),
            r@ == (RecipientView {
                id: old(self)@.next_recipient_id,
                phone_number: spec_normalize(addr@),
                nick: nick@,
                whatsapp: whatsapp,
                avatar_url: None,
                notify: view_opt_string(notify),
                nicksrc: nicksrc,
            }),
            final(self)@.recipients == old(self)@.recipients.push(r@),
            final(self)@.messages == old(self)@.messages,
            final(self)@.groups == old(self)@.groups,
            final(self)@.wa_msgids == old(self)@.wa_msgids,
            final(self)@.next_message_id == old(self)@.next_message_id,
            final(self)@.next_group_id == old(self)@.next_group_id,
    {
        let num = normalize_address(addr);
        let row = Recipient {
            id: self.next_recipient_id,
            phone_number: num,
            nick: nick.to_owned(),
            whatsapp,
            avatar_url: None,
            notify,
            nicksrc,
        };
        let ret = row.duplicate();
        proof {
            lemma_find_first_ensures(
                self@.recipients,
                |r: RecipientView| r.phone_number == spec_normalize(addr@),
            );
        }
        self.recipients.push(row);
        self.next_recipient_id = self.next_recipient_id + 1;
        proof {
            assert(self@.recipients =~= old(self)@.recipients.push(ret@));
            assert(self@.messages =~= old(self)@.messages);
            assert(self@.groups =~= old(self)@.groups);
            assert(self@.wa_msgids =~= old(self)@.wa_msgids);
            assert forall|i: int, j: int| 0 <= i < j < self@.recipients.len() implies self@.recipients[i].id
                != self@.recipients[j].id && self@.recipients[i].phone_number
                != self@.recipients[j].phone_number by {
                if j == self@.recipients.len() - 1 {
                    assert(self@.recipients[i] == old(self)@.recipients[i]);
                }
            }
        }
        ret
    }

    /// Rewrites the nick and nick source of every recipient row with this
    /// address.
    pub fn update_recipient_nick(&mut self, addr: &PduAddr, n: &str, src: i32)
        requires
            old(self).wf(),
        ensures
            final(self).wf(),
            final(self)@ == (StoreView {
                recipients: old(self)@.recipients.map_values(
                    |r: RecipientView|
                        if r.phone_number == spec_normalize(addr@) {
                            RecipientView { nick: n@, nicksrc: src, ..r }
                        } else {
                            r
                        },
                ),
                ..old(self)@
            }),
    {
        let num = normalize_address(addr);
        let cnt = self.recipients.len();
        let mut i: usize = 0;
        let ghost f = |r: RecipientView|
            if r.phone_number == spec_normalize(addr@) {
                RecipientView { nick: n@, nicksrc: src, ..r }
            } else {
                r
            };
        while i < cnt
            invariant
                cnt == self.recipients@.len(),
                i <= cnt,
                num@ == spec_normalize(addr@),
                f == (|r: RecipientView|
                    if r.phone_number == spec_normalize(addr@) {
                        RecipientView { nick: n@, nicksrc: src, ..r }
                    } else {
                        r
                    }),
                self@.recipients.len() == old(self)@.recipients.len(),
                forall|j: int|
                    0 <= j < i ==> self@.recipients[j] == f(#[trigger] old(self)@.recipients[j]),
                forall|j: int|
                    i <= j < cnt ==> self@.recipients[j] == #[trigger] old(self)@.recipients[j],
                self@.messages == old(self)@.messages,
                self@.groups == old(self)@.groups,
                self@.wa_msgids == old(self)@.wa_msgids,
                self@.next_recipient_id == old(self)@.next_recipient_id,
                self@.next_message_id == old(self)@.next_message_id,
                self@.next_group_id == old(self)@.next_group_id,
            decreases cnt - i,
        {
            if crate::util::string_eq(&self.recipients[i].phone_number, num.as_str()) {
                let updated = Recipient {
                    nick: n.to_owned(),
                    nicksrc: src,
                    ..self.recipients[i].duplicate()
                };
                let ghost before = self@.recipients;
                self.recipients.set(i, updated);
                proof {
                    assert(self@.recipients =~= before.update(
                        i as int,
                        f(old(self)@.recipients[i as int]),
                    ));
                }
            }
            i = i + 1;
        }
        proof {
            assert(self@.recipients =~= old(self)@.recipients.map_values(f));
            assert(final(self)@ =~= (StoreView {
                recipients: old(self)@.recipients.map_values(f),
                ..old(self)@
            }));
            assert forall|i2: int, j2: int|
                0 <= i2 < j2 < self@.recipients.len() implies self@.recipients[i2].id
                != self@.recipients[j2].id && self@.recipients[i2].phone_number
                != self@.recipients[j2].phone_number by {
                assert(self@.recipients[i2] == f(old(self)@.recipients[i2]));
                assert(self@.recipients[j2] == f(old(self)@.recipients[j2]));
            }
        }
    }

    /// Rewrites the WhatsApp-mode flag of every recipient row with this
    /// address.
    pub fn update_recipient_wa(&mut self, addr: &PduAddr, wa: bool)
        requires
            old(self).wf(),
        ensures
            final(self).wf(),
            final(self)@ == (StoreView {
                recipients: old(self)@.recipients.map_values(
                    |r: RecipientView|
                        if r.phone_number == spec_normalize(addr@) {
                            RecipientView { whatsapp: wa, ..r }
                        } else {
                            r
                        },
                ),
                ..old(self)@
            }),
    {
        let num = normalize_address(addr);
        let cnt = self.recipients.len();
        let mut i: usize = 0;
        let ghost f = |r: RecipientView|
            if r.phone_number == spec_normalize(addr@) {
                RecipientView { whatsapp: wa, ..r }
            } else {
                r
            };
        while i < cnt
            invariant
                cnt == self.recipients@.len(),
                i <= cnt,
                num@ == spec_normalize(addr@),
                f == (|r: RecipientView|
                    if r.phone_number == spec_normalize(addr@) {
                        RecipientView { whatsapp: wa, ..r }
                    } else {
                        r
                    }),
                self@.recipients.len() == old(self)@.recipients.len(),
                forall|j: int|
                    0 <= j < i ==> self@.recipients[j] == f(#[trigger] old(self)@.recipients[j]),
                forall|j: int|
                    i <= j < cnt ==> self@.recipients[j] == #[trigger] old(self)@.recipients[j],
                self@.messages == old(self)@.messages,
                self@.groups == old(self)@.groups,
                self@.wa_msgids == old(self)@.wa_msgids,
                self@.next_recipient_id == old(self)@.next_recipient_id,
                self@.next_message_id == old(self)@.next_message_id,
                self@.next_group_id == old(self)@.next_group_id,
            decreases cnt - i,
        {
            if crate::util::string_eq(&self.recipients[i].phone_number, num.as_str()) {
                let updated = Recipient { whatsapp: wa, ..self.recipients[i].duplicate() };
                let ghost before = self@.recipients;
                self.recipients.set(i, updated);
                proof {
                    assert(self@.recipients =~= before.update(
                        i as int,
                        f(old(self)@.recipients[i as int]),
                    ));
                }
            }
            i = i + 1;
        }
        proof {
            assert(self@.recipients =~= old(self)@.recipients.map_values(f));
            assert(final(self)@ =~= (StoreView {
                recipients: old(self)@.recipients.map_values(f),
                ..old(self)@
            }));
            assert forall|i2: int, j2: int|
                0 <= i2 < j2 < self@.recipients.len() implies self@.recipients[i2].id
                != self@.recipients[j2].id && self@.recipients[i2].phone_number
                != self@.recipients[j2].phone_number by {
                assert(self@.recipients[i2] == f(old(self)@.recipients[i2]));
                assert(self@.recipients[j2] == f(old(self)@.recipients[j2]));
            }
        }
    }

    /// Deletes every recipient row with this address; an error when none
    /// matched.
    pub fn delete_recipient_with_addr(&mut self, addr: &PduAddr) -> (r: Result<(), StoreError>)
        requires
            old(self).wf(),
        ensures
            final(self).wf(),
            final(self)@ == (StoreView {
                recipients: old(self)@.recipients.filter(
                    |x: RecipientView| x.phone_number != spec_normalize(addr@),
                ),
                ..old(self)@
            }),
            r is Ok <==> exists|i: int|
                0 <= i < old(self)@.recipients.len() && (#[trigger] old(
                    self,
                )@.recipients[i]).phone_number == spec_normalize(addr@),
    {
        let num = normalize_address(addr);
        let ghost p = |x: RecipientView| x.phone_number != spec_normalize(addr@);
        let cnt = self.recipients.len();
        let mut kept: Vec<Recipient> = Vec::new();
        let mut removed: bool = false;
        let mut i: usize = 0;
        proof {
            reveal(Seq::filter);
        }
        while i < cnt
            invariant
                cnt == self.recipients@.len(),
                i <= cnt,
                num@ == spec_normalize(addr@),
                p == (|x: RecipientView| x.phone_number != spec_normalize(addr@)),
                rviews(kept@) == self@.recipients.subrange(0, i as int).filter(p),
                removed <==> exists|j: int|
                    0 <= j < i && (#[trigger] self@.recipients[j]).phone_number == spec_normalize(
                        addr@,
                    ),
            decreases cnt - i,
        {
            proof {
                reveal(Seq::filter);
                assert(self@.recipients.subrange(0, i + 1).drop_last() == self@.recipients.subrange(
                    0,
                    i as int,
                ));
                assert(self@.recipients.subrange(0, i + 1).last() == self@.recipients[i as int]);
            }
            if crate::util::string_eq(&self.recipients[i].phone_number, num.as_str()) {
                removed = true;
            } else {
                kept.push(self.recipients[i].duplicate());
            }
            i = i + 1;
            proof {
                assert(rviews(kept@) =~= self@.recipients.subrange(0, i as int).filter(p));
            }
        }
        proof {
            assert(self@.recipients.subrange(0, cnt as int) == self@.recipients);
        }
        let ghost old_view = self@;
        self.recipients = kept;
        proof {
            lemma_filter_sorted(
                old_view.recipients,
                p,
                |a: RecipientView, b: RecipientView| a.id != b.id && a.phone_number
                    != b.phone_number,
            );
            assert forall|k: int| 0 <= k < self@.recipients.len() implies (
            #[trigger] self@.recipients[k]).id < self@.next_recipient_id by {
                lemma_filter_member(old_view.recipients, p, k);
            }
            assert(final(self)@ =~= (StoreView {
                recipients: old_view.recipients.filter(p),
                ..old_view
            }));
        }
        if removed {
            Ok(())
        } else {
            Err(StoreError::NotFound)
        }
    }

    /// Where a message joins the queue: before the first row with a later
    /// timestamp.
    pub open spec fn spec_msg_insert(ms: Seq<MessageView>, m: MessageView) -> Seq<MessageView>
        decreases ms.len(),
    {
        if ms.len() == 0 {
            seq![m]
        } else if ms[0].ts <= m.ts {
            seq![ms[0]] + Self::spec_msg_insert(ms.drop_first(), m)
        } else {
            seq![m] + ms
        }
    }

    proof fn lemma_msg_insert_at(ms: Seq<MessageView>, m: MessageView, i: int)
        requires
            0 <= i <= ms.len(),
            forall|j: int| 0 <= j < i ==> (#[trigger] ms[j]).ts <= m.ts,
            i < ms.len() ==> ms[i].ts > m.ts,
        ensures
            Self::spec_msg_insert(ms, m) == ms.insert(i, m),
        decreases i,
    {
        if i == 0 {
            if ms.len() == 0 {
                assert(Self::spec_msg_insert(ms, m) =~= ms.insert(0, m));
            } else {
                assert(ms[0].ts > m.ts);
                assert(Self::spec_msg_insert(ms, m) =~= ms.insert(0, m));
            }
        } else {
            assert(ms[0].ts <= m.ts);
            assert forall|j: int| 0 <= j < i - 1 implies (#[trigger] ms.drop_first()[j]).ts
                <= m.ts by {
                assert(ms.drop_first()[j] == ms[j + 1]);
            }
            assert(i - 1 < ms.drop_first().len() ==> ms.drop_first()[i - 1].ts > m.ts);
            Self::lemma_msg_insert_at(ms.drop_first(), m, i - 1);
            assert(Self::spec_msg_insert(ms, m) =~= ms.insert(i, m));
        }
    }

    fn insert_message_row(&mut self, row: Message) -> (r: Message)
        requires
            old(self).wf(),
            old(self).can_insert_message(),
            row@.id == old(self)@.next_message_id,
            row@.pdu is Some || row@.text is Some,
        ensures
            final(self).wf(),
            r@ == row@,
            final(self)@ == (StoreView {
                messages: Self::spec_msg_insert(old(self)@.messages, row@),
                next_message_id: (old(self)@.next_message_id + 1) as i32,
                ..old(self)@
            }),
    {
        let ret = row.duplicate();
        let cnt = self.messages.len();
        let mut pos: usize = 0;
        while pos < cnt && self.messages[pos].ts <= row.ts
            invariant
                cnt == self.messages@.len(),
                pos <= cnt,
                forall|j: int| 0 <= j < pos ==> (#[trigger] self@.messages[j]).ts <= row@.ts,
            decreases cnt - pos,
        {
            proof {
                assert(self@.messages[pos as int].ts == self.messages@[pos as int]@.ts);
            }
            pos = pos + 1;
        }
        proof {
            if pos < cnt {
                assert(self@.messages[pos as int].ts > row@.ts);
            }
            Self::lemma_msg_insert_at(self@.messages, row@, pos as int);
        }
        let ghost old_view = self@;
        self.messages.insert(pos, row);
        self.next_message_id = self.next_message_id + 1;
        proof {
            assert(self@.messages =~= old_view.messages.insert(pos as int, ret@));
            assert(final(self)@ =~= (StoreView {
                messages: Self::spec_msg_insert(old_view.messages, ret@),
                next_message_id: (old_view.next_message_id + 1) as i32,
                ..old_view
            }));
            let new_ms = self@.messages;
            assert forall|i: int, j: int| 0 <= i < j < new_ms.len() implies msg_before(
                #[trigger] new_ms[i],
                #[trigger] new_ms[j],
            ) by {
                if i < pos as int && j < pos as int {
                    assert(new_ms[i] == old_view.messages[i]);
                    assert(new_ms[j] == old_view.messages[j]);
                } else if i < pos as int && j == pos as int {
                    assert(new_ms[i] == old_view.messages[i]);
                    assert(new_ms[j] == ret@);
                    assert(old_view.messages[i].ts <= ret@.ts);
                    assert(old_view.messages[i].id < old_view.next_message_id);
                } else if i == pos as int {
                    assert(new_ms[i] == ret@);
                    assert(new_ms[j] == old_view.messages[j - 1]);
                    assert(old_view.messages[j - 1].ts > ret@.ts);
                } else if i > pos as int {
                    assert(new_ms[i] == old_view.messages[i - 1]);
                    assert(new_ms[j] == old_view.messages[j - 1]);
                } else {
                    assert(j > pos as int);
                    assert(new_ms[i] == old_view.messages[i]);
                    assert(new_ms[j] == old_view.messages[j - 1]);
                    if i < j - 1 {
                    } else {
                        assert(i == j - 1);
                        assert(i < pos as int);
                        assert(old_view.messages[i].ts <= ret@.ts);
                        assert(false);
                    }
                }
            }
        }
        ret
    }

    /// Queues a raw SMS message row.
    pub fn store_sms_message(&mut self, addr: &PduAddr, pdu: &Vec<u8>, csms_data: Option<i32>, ts: i64) -> (r:
        Message)
        requires
            old(self).wf(),
            old(self).can_insert_message(),
        ensures
            final(self).wf(),
            r@ == (MessageView {
                id: old(self)@.next_message_id,
                phone_number: spec_normalize(addr@),
                pdu: Some(pdu@),
                csms_data: csms_data,
                group_target: None,
                text: None,
                source: SOURCE_SMS,
                ts: ts,
            }),
            final(self)@ == (StoreView {
                messages: Self::spec_msg_insert(old(self)@.messages, r@),
                next_message_id: (old(self)@.next_message_id + 1) as i32,
                ..old(self)@
            }),
    {
        let num = normalize_address(addr);
        let row = Message {
            id: self.next_message_id,
            phone_number: num,
            pdu: Some(clone_copy_vec(pdu)),
            csms_data,
            group_target: None,
            text: None,
            source: SOURCE_SMS,
            ts,
        };
        proof {
            assert(row@ =~= (MessageView {
                id: self@.next_message_id,
                phone_number: spec_normalize(addr@),
                pdu: Some(pdu@),
                csms_data: csms_data,
                group_target: None,
                text: None,
                source: SOURCE_SMS,
                ts: ts,
            }));
        }
        self.insert_message_row(row)
    }

    /// Queues a plain-text WhatsApp message row.
    pub fn store_wa_message(&mut self, addr: &PduAddr, text: &str, group_target: Option<i32>, ts: i64) -> (r:
        Message)
        requires
            old(self).wf(),
            old(self).can_insert_message(),
        ensures
            final(self).wf(),
            r@ == (MessageView {
                id: old(self)@.next_message_id,
                phone_number: spec_normalize(addr@),
                pdu: None,
                csms_data: None,
                group_target: group_target,
                text: Some(text@),
                source: SOURCE_WA,
                ts: ts,
            }),
            final(self)@ == (StoreView {
                messages: Self::spec_msg_insert(old(self)@.messages, r@),
                next_message_id: (old(self)@.next_message_id + 1) as i32,
                ..old(self)@
            }),
    {
        let num = normalize_address(addr);
        let row = Message {
            id: self.next_message_id,
            phone_number: num,
            pdu: None,
            csms_data: None,
            group_target,
            text: Some(text.to_owned()),
            source: SOURCE_WA,
            ts,
        };
        proof {
            assert(row@ =~= (MessageView {
                id: self@.next_message_id,
                phone_number: spec_normalize(addr@),
                pdu: None,
                csms_data: None,
                group_target: group_target,
                text: Some(text@),
                source: SOURCE_WA,
                ts: ts,
            }));
        }
        self.insert_message_row(row)
    }

    /// Copies out the whole message queue, in delivery order.
    pub fn get_all_messages(&self) -> (r: Vec<Message>)
        ensures
            mviews(r@) == self@.messages,
    {
        let cnt = self.messages.len();
        let mut out: Vec<Message> = Vec::new();
        let mut i: usize = 0;
        while i < cnt
            invariant
                cnt == self.messages@.len(),
                i <= cnt,
                out@.len() == i,
                forall|j: int| 0 <= j < i ==> (#[trigger] out@[j])@ == self.messages@[j]@,
            decreases cnt - i,
        {
            out.push(self.messages[i].duplicate());
            i = i + 1;
        }
        proof {
            assert(mviews(out@) =~= self@.messages);
        }
        out
    }

    /// Copies out the queued messages for one address, in delivery order.
    pub fn get_messages_for_recipient(&self, addr: &PduAddr) -> (r: Vec<Message>)
        ensures
            mviews(r@) == self@.messages.filter(
                |m: MessageView| m.phone_number == spec_normalize(addr@),
            ),
    {
        let num = normalize_address(addr);
        let ghost p = |m: MessageView| m.phone_number == spec_normalize(addr@);
        let cnt = self.messages.len();
        let mut out: Vec<Message> = Vec::new();
        let mut i: usize = 0;
        proof {
            reveal(Seq::filter);
        }
        while i < cnt
            invariant
                cnt == self.messages@.len(),
                i <= cnt,
                num@ == spec_normalize(addr@),
                p == (|m: MessageView| m.phone_number == spec_normalize(addr@)),
                mviews(out@) == self@.messages.subrange(0, i as int).filter(p),
            decreases cnt - i,
        {
            proof {
                reveal(Seq::filter);
                assert(self@.messages.subrange(0, i + 1).drop_last() == self@.messages.subrange(
                    0,
                    i as int,
                ));
                assert(self@.messages.subrange(0, i + 1).last() == self@.messages[i as int]);
            }
            if crate::util::string_eq(&self.messages[i].phone_number, num.as_str()) {
                out.push(self.messages[i].duplicate());
            }
            i = i + 1;
            proof {
                assert(mviews(out@) =~= self@.messages.subrange(0, i as int).filter(p));
            }
        }
        proof {
            assert(self@.messages.subrange(0, cnt as int) == self@.messages);
        }
        out
    }

    /// Copies out every stored part of a concatenated message: the rows for
    /// this address that carry the given reference.
    pub fn get_all_concatenated(&self, num: &str, rf: i32) -> (r: Vec<Message>)
        ensures
            mviews(r@) == self@.messages.filter(
                |m: MessageView| m.csms_data == Some(rf) && m.phone_number == num@,
            ),
    {
        let ghost p = |m: MessageView| m.csms_data == Some(rf) && m.phone_number == num@;
        let cnt = self.messages.len();
        let mut out: Vec<Message> = Vec::new();
        let mut i: usize = 0;
        proof {
            reveal(Seq::filter);
        }
        while i < cnt
            invariant
                cnt == self.messages@.len(),
                i <= cnt,
                p == (|m: MessageView| m.csms_data == Some(rf) && m.phone_number == num@),
                mviews(out@) == self@.messages.subrange(0, i as int).filter(p),
            decreases cnt - i,
        {
            proof {
                reveal(Seq::filter);
                assert(self@.messages.subrange(0, i + 1).drop_last() == self@.messages.subrange(
                    0,
                    i as int,
                ));
                assert(self@.messages.subrange(0, i + 1).last() == self@.messages[i as int]);
            }
            let keep = match self.messages[i].csms_data {
                Some(v) => v == rf,
                None => false,
            };
            if keep && crate::util::string_eq(&self.messages[i].phone_number, num) {
                out.push(self.messages[i].duplicate());
            }
            i = i + 1;
            proof {
                assert(mviews(out@) =~= self@.messages.subrange(0, i as int).filter(p));
            }
        }
        proof {
            assert(self@.messages.subrange(0, cnt as int) == self@.messages);
        }
        out
    }

    /// Deletes the message row with this id; an error when none matched.
    pub fn delete_message(&mut self, mid: i32) -> (r: Result<(), StoreError>)
        requires
            old(self).wf(),
        ensures
            final(self).wf(),
            final(self)@ == (StoreView {
                messages: old(self)@.messages.filter(|x: MessageView| x.id != mid),
                ..old(self)@
            }),
            r is Ok <==> exists|i: int|
                0 <= i < old(self)@.messages.len() && (#[trigger] old(self)@.messages[i]).id == mid,
    {
        let ghost p = |x: MessageView| x.id != mid;
        let cnt = self.messages.len();
        let mut kept: Vec<Message> = Vec::new();
        let mut removed: bool = false;
        let mut i: usize = 0;
        proof {
            reveal(Seq::filter);
        }
        while i < cnt
            invariant
                cnt == self.messages@.len(),
                i <= cnt,
                p == (|x: MessageView| x.id != mid),
                mviews(kept@) == self@.messages.subrange(0, i as int).filter(p),
                removed <==> exists|j: int|
                    0 <= j < i && (#[trigger] self@.messages[j]).id == mid,
            decreases cnt - i,
        {
            proof {
                reveal(Seq::filter);
                assert(self@.messages.subrange(0, i + 1).drop_last() == self@.messages.subrange(
                    0,
                    i as int,
                ));
                assert(self@.messages.subrange(0, i + 1).last() == self@.messages[i as int]);
            }
            if self.messages[i].id == mid {
                removed = true;
            } else {
                kept.push(self.messages[i].duplicate());
            }
            i = i + 1;
            proof {
                assert(mviews(kept@) =~= self@.messages.subrange(0, i as int).filter(p));
            }
        }
        proof {
            assert(self@.messages.subrange(0, cnt as int) == self@.messages);
        }
        let ghost old_view = self@;
        self.messages = kept;
        proof {
            lemma_filter_sorted(old_view.messages, p, |a: MessageView, b: MessageView| msg_before(a, b));
            assert forall|k: int| 0 <= k < self@.messages.len() implies (
            #[trigger] self@.messages[k]).id < self@.next_message_id && (self@.messages[k].pdu
                is Some || self@.messages[k].text is Some) by {
                lemma_filter_member(old_view.messages, p, k);
            }
            assert(final(self)@ =~= (StoreView { messages: old_view.messages.filter(p), ..old_view }));
        }
        if removed {
            Ok(())
        } else {
            Err(StoreError::NotFound)
        }
    }

    /// Deletes every stored part of a concatenated message in one step:
    /// the rows for this address that carry the given reference.
    pub fn delete_concatenated(&mut self, num: &str, rf: i32)
        requires
            old(self).wf(),
        ensures
            final(self).wf(),
            final(self)@ == (StoreView {
                messages: old(self)@.messages.filter(
                    |x: MessageView| !(x.csms_data == Some(rf) && x.phone_number == num@),
                ),
                ..old(self)@
            }),
    {
        let ghost p = |x: MessageView| !(x.csms_data == Some(rf) && x.phone_number == num@);
        let cnt = self.messages.len();
        let mut kept: Vec<Message> = Vec::new();
        let mut i: usize = 0;
        proof {
            reveal(Seq::filter);
        }
        while i < cnt
            invariant
                cnt == self.messages@.len(),
                i <= cnt,
                p == (|x: MessageView| !(x.csms_data == Some(rf) && x.phone_number == num@)),
                mviews(kept@) == self@.messages.subrange(0, i as int).filter(p),
            decreases cnt - i,
        {
            proof {
                reveal(Seq::filter);
                assert(self@.messages.subrange(0, i + 1).drop_last() == self@.messages.subrange(
                    0,
                    i as int,
                ));
                assert(self@.messages.subrange(0, i + 1).last() == self@.messages[i as int]);
            }
            let is_ref = match self.messages[i].csms_data {
                Some(v) => v == rf,
                None => false,
            };
            if !(is_ref && crate::util::string_eq(&self.messages[i].phone_number, num)) {
                kept.push(self.messages[i].duplicate());
            }
            i = i + 1;
            proof {
                assert(mviews(kept@) =~= self@.messages.subrange(0, i as int).filter(p));
            }
        }
        proof {
            assert(self@.messages.subrange(0, cnt as int) == self@.messages);
        }
        let ghost old_view = self@;
        self.messages = kept;
        proof {
            lemma_filter_sorted(old_view.messages, p, |a: MessageView, b: MessageView| msg_before(a, b));
            assert forall|k: int| 0 <= k < self@.messages.len() implies (
            #[trigger] self@.messages[k]).id < self@.next_message_id && (self@.messages[k].pdu
                is Some || self@.messages[k].text is Some) by {
                lemma_filter_member(old_view.messages, p, k);
            }
            assert(final(self)@ =~= (StoreView { messages: old_view.messages.filter(p), ..old_view }));
        }
    }

    /// What a group lookup by row id yields.
    pub open spec fn spec_group_by_id(&self, id: i32) -> Option<GroupView> {
        find_first(self@.groups, |g: GroupView| g.id == id)
    }

    /// Looks a group up by row id.
    pub fn get_group_by_id(&self, gid: i32) -> (r: Option<Group>)
        ensures
            match r {
                Some(x) => self.spec_group_by_id(gid) == Some(x@),
                None => self.spec_group_by_id(gid) is None,
            },
    {
        let ghost p = |g: GroupView| g.id == gid;
        let cnt = self.groups.len();
        let mut i: usize = 0;
        proof {
            assert(self@.groups.skip(0) =~= self@.groups);
        }
        while i < cnt
            invariant
                cnt == self.groups@.len(),
                i <= cnt,
                p == (|g: GroupView| g.id == gid),
                find_first(self@.groups, p) == find_first(self@.groups.skip(i as int), p),
            decreases cnt - i,
        {
            proof {
                assert(self@.groups.skip(i as int)[0] == self@.groups[i as int]);
                assert(self@.groups.skip(i as int).drop_first() =~= self@.groups.skip(i + 1));
            }
            if self.groups[i].id == gid {
                proof {
                    assert(p(self@.groups[i as int]));
                }
                return Some(self.groups[i].duplicate());
            }
            proof {
                assert(!p(self@.groups[i as int]));
            }
            i = i + 1;
        }
        proof {
            assert(self@.groups.skip(cnt as int) =~= Seq::<GroupView>::empty());
        }
        None
    }

    /// What a group lookup by group identifier yields.
    pub open spec fn spec_group_by_jid(&self, jid: Seq<char>) -> Option<GroupView> {
        find_first(self@.groups, |g: GroupView| g.jid == jid)
    }

    /// Looks a group up by its remote group identifier.
    pub fn get_group_by_jid_opt(&self, j: &str) -> (r: Option<Group>)
        ensures
            match r {
                Some(x) => self.spec_group_by_jid(j@) == Some(x@),
                None => self.spec_group_by_jid(j@) is None,
            },
    {
        let ghost p = |g: GroupView| g.jid == j@;
        let cnt = self.groups.len();
        let mut i: usize = 0;
        proof {
            assert(self@.groups.skip(0) =~= self@.groups);
        }
        while i < cnt
            invariant
                cnt == self.groups@.len(),
                i <= cnt,
                p == (|g: GroupView| g.jid == j@),
                find_first(self@.groups, p) == find_first(self@.groups.skip(i as int), p),
            decreases cnt - i,
        {
            proof {
                assert(self@.groups.skip(i as int)[0] == self@.groups[i as int]);
                assert(self@.groups.skip(i as int).drop_first() =~= self@.groups.skip(i + 1));
            }
            if crate::util::string_eq(&self.groups[i].jid, j) {
                proof {
                    assert(p(self@.groups[i as int]));
                }
                return Some(self.groups[i].duplicate());
            }
            proof {
                assert(!p(self@.groups[i as int]));
            }
            i = i + 1;
        }
        proof {
            assert(self@.groups.skip(cnt as int) =~= Seq::<GroupView>::empty());
        }
        None
    }

    /// What a group lookup by channel yields.
    pub open spec fn spec_group_by_chan(&self, chan: Seq<char>) -> Option<GroupView> {
        find_first(self@.groups, |g: GroupView| g.channel == chan)
    }

    /// Looks a group up by its bridged channel name.
    pub fn get_group_by_chan_opt(&self, c: &str) -> (r: Option<Group>)
        ensures
            match r {
                Some(x) => self.spec_group_by_chan(c@) == Some(x@),
                None => self.spec_group_by_chan(c@) is None,
            },
    {
        let ghost p = |g: GroupView| g.channel == c@;
        let cnt = self.groups.len();
        let mut i: usize = 0;
        proof {
            assert(self@.groups.skip(0) =~= self@.groups);
        }
        while i < cnt
            invariant
                cnt == self.groups@.len(),
                i <= cnt,
                p == (|g: GroupView| g.channel == c@),
                find_first(self@.groups, p) == find_first(self@.groups.skip(i as int), p),
            decreases cnt - i,
        {
            proof {
                assert(self@.groups.skip(i as int)[0] == self@.groups[i as int]);
                assert(self@.groups.skip(i as int).drop_first() =~= self@.groups.skip(i + 1));
            }
            if crate::util::string_eq(&self.groups[i].channel, c) {
                proof {
                    assert(p(self@.groups[i as int]));
                }
                return Some(self.groups[i].duplicate());
            }
            proof {
                assert(!p(self@.groups[i as int]));
            }
            i = i + 1;
        }
        proof {
            assert(self@.groups.skip(cnt as int) =~= Seq::<GroupView>::empty());
        }
        None
    }

    /// Copies out every group row.
    pub fn get_all_groups(&self) -> (r: Vec<Group>)
        ensures
            gviews(r@) == self@.groups,
    {
        let cnt = self.groups.len();
        let mut out: Vec<Group> = Vec::new();
        let mut i: usize = 0;
        while i < cnt
            invariant
                cnt == self.groups@.len(),
                i <= cnt,
                out@.len() == i,
                forall|j: int| 0 <= j < i ==> (#[trigger] out@[j])@ == self.groups@[j]@,
            decreases cnt - i,
        {
            out.push(self.groups[i].duplicate());
            i = i + 1;
        }
        proof {
            assert(gviews(out@) =~= self@.groups);
        }
        out
    }

    /// Copies out the groups in which the recipient with this address takes
    /// part; nothing when no such recipient exists.
    pub fn get_groups_for_recipient(&self, addr: &PduAddr) -> (r: Option<Vec<Group>>)
        ensures
            match self.spec_recipient_by_phone(spec_normalize(addr@)) {
                Some(rec) => r matches Some(v) && gviews(v@) == self@.groups.filter(
                    |g: GroupView| g.participants.contains(rec.id),
                ),
                None => r is None,
            },
    {
        let rec = match self.get_recipient_by_addr_opt(addr) {
            Some(rec) => rec,
            None => {
                return None;
            },
        };
        let rid = rec.id;
        let ghost p = |g: GroupView| g.participants.contains(rid);
        let cnt = self.groups.len();
        let mut out: Vec<Group> = Vec::new();
        let mut i: usize = 0;
        proof {
            reveal(Seq::filter);
        }
        while i < cnt
            invariant
                cnt == self.groups@.len(),
                i <= cnt,
                p == (|g: GroupView| g.participants.contains(rid)),
                gviews(out@) == self@.groups.subrange(0, i as int).filter(p),
            decreases cnt - i,
        {
            proof {
                reveal(Seq::filter);
                assert(self@.groups.subrange(0, i + 1).drop_last() == self@.groups.subrange(
                    0,
                    i as int,
                ));
                assert(self@.groups.subrange(0, i + 1).last() == self@.groups[i as int]);
            }
            if crate::util::contains_i32(&self.groups[i].participants, rid) {
                proof {
                    assert(p(self@.groups[i as int]));
                }
                out.push(self.groups[i].duplicate());
            } else {
                proof {
                    assert(!p(self@.groups[i as int]));
                }
            }
            i = i + 1;
            proof {
                assert(gviews(out@) =~= self@.groups.subrange(0, i as int).filter(p));
            }
        }
        proof {
            assert(self@.groups.subrange(0, cnt as int) == self@.groups);
        }
        Some(out)
    }

    /// Inserts a fresh group row.
    pub fn store_group(&mut self, jid: &str, channel: &str, participants: Vec<i32>, admins: Vec<i32>, topic: &str) -> (r:
        Group)
        requires
            old(self).wf(),
            old(self).can_insert_group(),
        ensures
            final(self).wf(),
            r@ == (GroupView {
                id: old(self)@.next_group_id,
                jid: jid@,
                channel: channel@,
                participants: participants@,
                admins: admins@,
                topic: topic@,
            }),
            final(self)@ == (StoreView {
                groups: old(self)@.groups.push(r@),
                next_group_id: (old(self)@.next_group_id + 1) as i32,
                ..old(self)@
            }),
    {
        let row = Group {
            id: self.next_group_id,
            jid: jid.to_owned(),
            channel: channel.to_owned(),
            participants,
            admins,
            topic: topic.to_owned(),
        };
        let ret = row.duplicate();
        self.groups.push(row);
        self.next_group_id = self.next_group_id + 1;
        proof {
            assert(self@.groups =~= old(self)@.groups.push(ret@));
            assert(final(self)@ =~= (StoreView {
                groups: old(self)@.groups.push(ret@),
                next_group_id: (old(self)@.next_group_id + 1) as i32,
                ..old(self)@
            }));
            assert forall|i: int, j: int| 0 <= i < j < self@.groups.len() implies self@.groups[i].id
                != self@.groups[j].id by {
                if j == self@.groups.len() - 1 {
                    assert(self@.groups[i] == old(self)@.groups[i]);
                }
            }
        }
        ret
    }

    /// Rewrites the participants, admins and topic of every group row with
    /// this remote identifier; returns the first updated row.
    pub fn update_group(&mut self, j: &str, parts: Vec<i32>, adms: Vec<i32>, tpc: &str) -> (r: Option<Group>)
        requires
            old(self).wf(),
        ensures
            final(self).wf(),
            final(self)@ == (StoreView {
                groups: old(self)@.groups.map_values(
                    |g: GroupView|
                        if g.jid == j@ {
                            GroupView {
                                participants: parts@,
                                admins: adms@,
                                topic: tpc@,
                                ..g
                            }
                        } else {
                            g
                        },
                ),
                ..old(self)@
            }),
            match r {
                Some(x) => exists|i: int|
                    0 <= i < old(self)@.groups.len() && (#[trigger] old(self)@.groups[i]).jid == j@
                        && x@ == (GroupView {
                        participants: parts@,
                        admins: adms@,
                        topic: tpc@,
                        ..old(self)@.groups[i]
                    }),
                None => forall|i: int|
                    0 <= i < old(self)@.groups.len() ==> (#[trigger] old(self)@.groups[i]).jid
                        != j@,
            },
    {
        let cnt = self.groups.len();
        let mut i: usize = 0;
        let mut found: Option<Group> = None;
        let ghost f = |g: GroupView|
            if g.jid == j@ {
                GroupView { participants: parts@, admins: adms@, topic: tpc@, ..g }
            } else {
                g
            };
        while i < cnt
            invariant
                cnt == self.groups@.len(),
                i <= cnt,
                f == (|g: GroupView|
                    if g.jid == j@ {
                        GroupView { participants: parts@, admins: adms@, topic: tpc@, ..g }
                    } else {
                        g
                    }),
                self@.groups.len() == old(self)@.groups.len(),
                forall|k: int|
                    0 <= k < i ==> self@.groups[k] == f(#[trigger] old(self)@.groups[k]),
                forall|k: int| i <= k < cnt ==> self@.groups[k] == #[trigger] old(self)@.groups[k],
                self@.recipients == old(self)@.recipients,
                self@.messages == old(self)@.messages,
                self@.wa_msgids == old(self)@.wa_msgids,
                self@.next_recipient_id == old(self)@.next_recipient_id,
                self@.next_message_id == old(self)@.next_message_id,
                self@.next_group_id == old(self)@.next_group_id,
                match found {
                    Some(x) => exists|k: int|
                        0 <= k < i && (#[trigger] old(self)@.groups[k]).jid == j@ && x@
                            == (GroupView {
                            participants: parts@,
                            admins: adms@,
                            topic: tpc@,
                            ..old(self)@.groups[k]
                        }),
                    None => forall|k: int|
                        0 <= k < i ==> (#[trigger] old(self)@.groups[k]).jid != j@,
                },
            decreases cnt - i,
        {
            if crate::util::string_eq(&self.groups[i].jid, j) {
                let updated = Group {
                    participants: clone_copy_vec(&parts),
                    admins: clone_copy_vec(&adms),
                    topic: tpc.to_owned(),
                    ..self.groups[i].duplicate()
                };
                let ghost before = self@.groups;
                if found.is_none() {
                    found = Some(updated.duplicate());
                }
                self.groups.set(i, updated);
                proof {
                    assert(self@.groups =~= before.update(
                        i as int,
                        f(old(self)@.groups[i as int]),
                    ));
                }
            }
            i = i + 1;
        }
        proof {
            assert(self@.groups =~= old(self)@.groups.map_values(f));
            assert(final(self)@ =~= (StoreView {
                groups: old(self)@.groups.map_values(f),
                ..old(self)@
            }));
            assert forall|i2: int, j2: int| 0 <= i2 < j2 < self@.groups.len() implies self@.groups[i2].id
                != self@.groups[j2].id by {
                assert(self@.groups[i2] == f(old(self)@.groups[i2]));
                assert(self@.groups[j2] == f(old(self)@.groups[j2]));
            }
        }
        found
    }

    /// Deletes the group row with this id; an error when none matched.
    pub fn delete_group_with_id(&mut self, gid: i32) -> (r: Result<(), StoreError>)
        requires
            old(self).wf(),
        ensures
            final(self).wf(),
            final(self)@ == (StoreView {
                groups: old(self)@.groups.filter(|x: GroupView| x.id != gid),
                ..old(self)@
            }),
            r is Ok <==> exists|i: int|
                0 <= i < old(self)@.groups.len() && (#[trigger] old(self)@.groups[i]).id == gid,
    {
        let ghost p = |x: GroupView| x.id != gid;
        let cnt = self.groups.len();
        let mut kept: Vec<Group> = Vec::new();
        let mut removed: bool = false;
        let mut i: usize = 0;
        proof {
            reveal(Seq::filter);
        }
        while i < cnt
            invariant
                cnt == self.groups@.len(),
                i <= cnt,
                p == (|x: GroupView| x.id != gid),
                gviews(kept@) == self@.groups.subrange(0, i as int).filter(p),
                removed <==> exists|j2: int|
                    0 <= j2 < i && (#[trigger] self@.groups[j2]).id == gid,
            decreases cnt - i,
        {
            proof {
                reveal(Seq::filter);
                assert(self@.groups.subrange(0, i + 1).drop_last() == self@.groups.subrange(
                    0,
                    i as int,
                ));
                assert(self@.groups.subrange(0, i + 1).last() == self@.groups[i as int]);
            }
            if self.groups[i].id == gid {
                removed = true;
            } else {
                kept.push(self.groups[i].duplicate());
            }
            i = i + 1;
            proof {
                assert(gviews(kept@) =~= self@.groups.subrange(0, i as int).filter(p));
            }
        }
        proof {
            assert(self@.groups.subrange(0, cnt as int) == self@.groups);
        }
        let ghost old_view = self@;
        self.groups = kept;
        proof {
            lemma_filter_sorted(old_view.groups, p, |a: GroupView, b: GroupView| a.id != b.id);
            assert forall|k: int| 0 <= k < self@.groups.len() implies (
            #[trigger] self@.groups[k]).id < self@.next_group_id by {
                lemma_filter_member(old_view.groups, p, k);
            }
            assert(final(self)@ =~= (StoreView { groups: old_view.groups.filter(p), ..old_view }));
        }
        if removed {
            Ok(())
        } else {
            Err(StoreError::NotFound)
        }
    }

    /// Whether this WhatsApp message id was already recorded.
    pub fn is_wa_msgid_stored(&self, id: &str) -> (r: bool)
        ensures
            r == self@.wa_msgids.contains(id@),
    {
        let cnt = self.wa_msgids.len();
        let mut i: usize = 0;
        while i < cnt
            invariant
                cnt == self.wa_msgids@.len(),
                i <= cnt,
                forall|j: int| 0 <= j < i ==> self@.wa_msgids[j] != id@,
            decreases cnt - i,
        {
            if crate::util::string_eq(&self.wa_msgids[i], id) {
                proof {
                    assert(self@.wa_msgids[i as int] == id@);
                }
                return true;
            }
            i = i + 1;
        }
        proof {
            assert(forall|j: int| 0 <= j < cnt ==> self@.wa_msgids[j] != id@);
        }
        false
    }

    /// Records a WhatsApp message id; recording a known id changes nothing.
    pub fn store_wa_msgid(&mut self, id: String)
        requires
            old(self).wf(),
        ensures
            final(self).wf(),
            final(self)@ == (StoreView {
                wa_msgids: if old(self)@.wa_msgids.contains(id@) {
                    old(self)@.wa_msgids
                } else {
                    old(self)@.wa_msgids.push(id@)
                },
                ..old(self)@
            }),
    {
        if self.is_wa_msgid_stored(id.as_str()) {
            proof {
                assert(final(self)@ =~= (StoreView { wa_msgids: old(self)@.wa_msgids, ..old(self)@ }));
            }
            return;
        }
        let ghost idv = id@;
        self.wa_msgids.push(id);
        proof {
            assert(self@.wa_msgids =~= old(self)@.wa_msgids.push(idv));
            assert(final(self)@ =~= (StoreView {
                wa_msgids: old(self)@.wa_msgids.push(idv),
                ..old(self)@
            }));
        }
    }

    /// Rewrites the notify name of every recipient row with this address.
    pub fn update_recipient_notify(&mut self, addr: &PduAddr, n: &Option<String>)
        requires
            old(self).wf(),
        ensures
            final(self).wf(),
            final(self)@ == (StoreView {
                recipients: old(self)@.recipients.map_values(
                    |r: RecipientView|
                        if r.phone_number == spec_normalize(addr@) {
                            RecipientView { notify: view_opt_string(*n), ..r }
                        } else {
                            r
                        },
                ),
                ..old(self)@
            }),
    {
        let num = normalize_address(addr);
        let cnt = self.recipients.len();
        let mut i: usize = 0;
        let ghost f = |r: RecipientView|
            if r.phone_number == spec_normalize(addr@) {
                RecipientView { notify: view_opt_string(*n), ..r }
            } else {
                r
            };
        while i < cnt
            invariant
                cnt == self.recipients@.len(),
                i <= cnt,
                num@ == spec_normalize(addr@),
                f == (|r: RecipientView|
                    if r.phone_number == spec_normalize(addr@) {
                        RecipientView { notify: view_opt_string(*n), ..r }
                    } else {
                        r
                    }),
                self@.recipients.len() == old(self)@.recipients.len(),
                forall|j: int|
                    0 <= j < i ==> self@.recipients[j] == f(#[trigger] old(self)@.recipients[j]),
                forall|j: int|
                    i <= j < cnt ==> self@.recipients[j] == #[trigger] old(self)@.recipients[j],
                self@.messages == old(self)@.messages,
                self@.groups == old(self)@.groups,
                self@.wa_msgids == old(self)@.wa_msgids,
                self@.next_recipient_id == old(self)@.next_recipient_id,
                self@.next_message_id == old(self)@.next_message_id,
                self@.next_group_id == old(self)@.next_group_id,
            decreases cnt - i,
        {
            if crate::util::string_eq(&self.recipients[i].phone_number, num.as_str()) {
                let updated = Recipient {
                    notify: clone_opt_string(n),
                    ..self.recipients[i].duplicate()
                };
                let ghost before = self@.recipients;
                self.recipients.set(i, updated);
                proof {
                    assert(self@.recipients =~= before.update(
                        i as int,
                        f(old(self)@.recipients[i as int]),
                    ));
                }
            }
            i = i + 1;
        }
        proof {
            assert(self@.recipients =~= old(self)@.recipients.map_values(f));
            assert(final(self)@ =~= (StoreView {
                recipients: old(self)@.recipients.map_values(f),
                ..old(self)@
            }));
            assert forall|i2: int, j2: int|
                0 <= i2 < j2 < self@.recipients.len() implies self@.recipients[i2].id
                != self@.recipients[j2].id && self@.recipients[i2].phone_number
                != self@.recipients[j2].phone_number by {
                assert(self@.recipients[i2] == f(old(self)@.recipients[i2]));
                assert(self@.recipients[j2] == f(old(self)@.recipients[j2]));
            }
        }
    }
}

} // verus!

//! Message delivery building blocks: PDU decoding, splitting outbound text
//! into wire-sized fragments, and reassembling concatenated SMS parts in
//! sequence order.

use vstd::prelude::*;
use std::convert::TryFrom;

verus! {

/// Concatenation metadata carried in a message's user data header.
#[derive(Clone, Copy, PartialEq, Eq, Structural, Debug)]
pub struct ConcatInfo {
    pub reference: u16,
    pub parts: u8,
    pub sequence: u8,
}

/// A decoded SMS: its text and, for a multi-part message, its
/// concatenation metadata.
pub struct DecodedSms {
    pub text: String,
    pub concat: Option<ConcatInfo>,
}

/// What decoding a PDU yields: nothing for an undecodable PDU, else the
/// text and any concatenation metadata.  The result is a function of the
/// PDU bytes alone.
pub uninterp spec fn pdu_decode_of(b: Seq<u8>) -> Option<(Seq<char>, Option<ConcatInfo>)>;

/// Relies on huawei_modem's `DeliverPdu::try_from` and
/// `GsmMessageData::decode_message`: they return without panicking on every
/// input, and what they return depends on the PDU bytes alone.
#[verifier::external_body]
pub(crate) fn decode_sms_pdu(pdu: &Vec<u8>) -> (r: Option<DecodedSms>)
    ensures
        r is Some <==> pdu_decode_of(pdu@) is Some,
        r matches Some(d) ==> pdu_decode_of(pdu@) == Some((d.text@, d.concat)),
{
    let parsed = match huawei_modem::pdu::DeliverPdu::try_from(pdu.as_slice()) {
        Ok(p) => p,
        Err(_) => return None,
    };
    match parsed.get_message_data().decode_message() {
        Ok(m) => Some(DecodedSms {
            concat: m.udh.and_then(|u| u.get_concatenated_sms_data()).map(
                |c| ConcatInfo { reference: c.reference, parts: c.parts, sequence: c.sequence },
            ),
            text: m.text,
        }),
        Err(_) => None,
    }
}

/// The maximum fragment size sent in one protocol message.
pub const MESSAGE_MAX_LEN: usize = 350;

/// A line cut greedily into fragments of at most `k` characters.
pub open spec fn spec_chunks(line: Seq<char>, k: nat) -> Seq<Seq<char>>
    decreases line.len(),
{
    if k == 0 || line.len() == 0 {
        Seq::<Seq<char>>::empty()
    } else if line.len() <= k {
        seq![line]
    } else {
        seq![line.take(k as int)] + spec_chunks(line.skip(k as int), k)
    }
}

pub open spec fn spec_strip_cr(s: Seq<char>) -> Seq<char> {
    if s.len() > 0 && s.last() == '\r' {
        s.drop_last()
    } else {
        s
    }
}

/// The lines of the text left of `s` when `cur` has been read so far: each
/// line break ends a line and eats one carriage return before it; a final
/// unterminated line is kept whole.
pub open spec fn spec_lines_acc(s: Seq<char>, cur: Seq<char>) -> Seq<Seq<char>>
    decreases s.len(),
{
    if s.len() == 0 {
        if cur.len() > 0 {
            seq![cur]
        } else {
            Seq::<Seq<char>>::empty()
        }
    } else if s[0] == '\n' {
        seq![spec_strip_cr(cur)] + spec_lines_acc(s.drop_first(), Seq::<char>::empty())
    } else {
        spec_lines_acc(s.drop_first(), cur.push(s[0]))
    }
}

/// The text cut at line breaks, as `str::lines` cuts it.
pub open spec fn spec_lines_of(s: Seq<char>) -> Seq<Seq<char>> {
    spec_lines_acc(s, Seq::<char>::empty())
}

proof fn lemma_lines_acc_break(s: Seq<char>, cur: Seq<char>, d: int)
    requires
        0 <= d < s.len(),
        forall|j: int| 0 <= j < d ==> s[j] != '\n',
        s[d] == '\n',
    ensures
        spec_lines_acc(s, cur) == seq![spec_strip_cr(cur + s.take(d))] + spec_lines_acc(
            s.skip(d + 1),
            Seq::<char>::empty(),
        ),
    decreases d,
{
    if d == 0 {
        assert(cur + s.take(0) =~= cur);
        assert(s.drop_first() =~= s.skip(1));
    } else {
        assert(s[0] != '\n');
        let s2 = s.drop_first();
        assert forall|j: int| 0 <= j < d - 1 implies s2[j] != '\n' by {
            assert(s2[j] == s[j + 1]);
        }
        assert(s2[d - 1] == s[d as int]);
        lemma_lines_acc_break(s2, cur.push(s[0]), d - 1);
        assert(cur.push(s[0]) + s2.take(d - 1) =~= cur + s.take(d));
        assert(s2.skip(d) =~= s.skip(d + 1));
    }
}

proof fn lemma_lines_acc_end(s: Seq<char>, cur: Seq<char>)
    requires
        forall|j: int| 0 <= j < s.len() ==> s[j] != '\n',
    ensures
        spec_lines_acc(s, cur) == if (cur + s).len() > 0 {
            seq![cur + s]
        } else {
            Seq::<Seq<char>>::empty()
        },
    decreases s.len(),
{
    if s.len() == 0 {
        assert(cur + s =~= cur);
    } else {
        let s2 = s.drop_first();
        assert forall|j: int| 0 <= j < s2.len() implies s2[j] != '\n' by {
            assert(s2[j] == s[j + 1]);
        }
        lemma_lines_acc_end(s2, cur.push(s[0]));
        assert(cur.push(s[0]) + s2 =~= cur + s);
    }
}

/// Every fragment of every line, in order.
pub open spec fn spec_flat_chunks(ls: Seq<Seq<char>>, k: nat) -> Seq<Seq<char>>
    decreases ls.len(),
{
    if ls.len() == 0 {
        Seq::<Seq<char>>::empty()
    } else {
        spec_chunks(ls[0], k) + spec_flat_chunks(ls.drop_first(), k)
    }
}

/// What splitting an outbound text yields: the text is cut at line breaks,
/// and each line greedily into fragments of at most the wire limit, never
/// splitting mid-character.
pub open spec fn spec_fragments(s: Seq<char>) -> Seq<Seq<char>> {
    spec_flat_chunks(spec_lines_of(s), MESSAGE_MAX_LEN as nat)
}

/// Cuts one line into fragments of at most `MESSAGE_MAX_LEN` characters.
fn chunk_line(line: &str) -> (r: Vec<String>)
    ensures
        r@.map_values(|f: String| f@) == spec_chunks(line@, MESSAGE_MAX_LEN as nat),
{
    let mut out: Vec<String> = Vec::new();
    let mut rest: String = line.to_owned();
    proof {
        assert(spec_chunks(line@, MESSAGE_MAX_LEN as nat) =~= out@.map_values(|f: String| f@)
            + spec_chunks(rest@, MESSAGE_MAX_LEN as nat));
    }
    while rest.unicode_len() > MESSAGE_MAX_LEN
        invariant
            spec_chunks(line@, MESSAGE_MAX_LEN as nat) == out@.map_values(|f: String| f@)
                + spec_chunks(rest@, MESSAGE_MAX_LEN as nat),
        decreases rest@.len(),
    {
        let ghost out_before = out@.map_values(|f: String| f@);
        let ghost rest_before = rest@;
        let len = rest.unicode_len();
        let head = rest.as_str().substring_char(0, MESSAGE_MAX_LEN);
        let tail = rest.as_str().substring_char(MESSAGE_MAX_LEN, len);
        proof {
            assert(head@ =~= rest_before.take(MESSAGE_MAX_LEN as int));
            assert(tail@ =~= rest_before.skip(MESSAGE_MAX_LEN as int));
            assert(spec_chunks(rest_before, MESSAGE_MAX_LEN as nat) == seq![rest_before.take(
                MESSAGE_MAX_LEN as int,
            )] + spec_chunks(rest_before.skip(MESSAGE_MAX_LEN as int), MESSAGE_MAX_LEN as nat));
        }
        out.push(head.to_owned());
        rest = tail.to_owned();
        proof {
            assert(out@.map_values(|f: String| f@) =~= out_before.push(rest_before.take(
                MESSAGE_MAX_LEN as int,
            )));
            assert(out@.map_values(|f: String| f@) + spec_chunks(rest@, MESSAGE_MAX_LEN as nat)
                =~= out_before + spec_chunks(rest_before, MESSAGE_MAX_LEN as nat));
        }
    }
    if rest.unicode_len() > 0 {
        proof {
            assert(spec_chunks(rest@, MESSAGE_MAX_LEN as nat) == seq![rest@]);
        }
        out.push(rest);
    } else {
        proof {
            assert(spec_chunks(rest@, MESSAGE_MAX_LEN as nat) =~= Seq::<Seq<char>>::empty());
        }
    }
    proof {
        assert(out@.map_values(|f: String| f@) =~= spec_chunks(line@, MESSAGE_MAX_LEN as nat));
    }
    out
}

/// Splits an outbound text at line breaks and cuts every line into
/// wire-sized fragments.
pub fn split_message(msg: &str) -> (r: Vec<String>)
    ensures
        r@.map_values(|f: String| f@) == spec_fragments(msg@),
{
    let len = msg.unicode_len();
    let mut out: Vec<String> = Vec::new();
    let mut pos: usize = 0;
    proof {
        assert(msg@.skip(0) =~= msg@);
        assert(spec_fragments(msg@) =~= out@.map_values(|f: String| f@) + spec_flat_chunks(
            spec_lines_of(msg@.skip(0)),
            MESSAGE_MAX_LEN as nat,
        ));
    }
    while pos < len
        invariant
            len == msg@.len(),
            pos <= len,
            spec_fragments(msg@) == out@.map_values(|f: String| f@) + spec_flat_chunks(
                spec_lines_of(msg@.skip(pos as int)),
                MESSAGE_MAX_LEN as nat,
            ),
        decreases len - pos,
    {
        let ghost rest = msg@.skip(pos as int);
        // find the next line break, if any
        let mut j: usize = pos;
        while j < len && msg.get_char(j) != '\n'
            invariant
                len == msg@.len(),
                pos <= j <= len,
                forall|k: int| pos <= k < j ==> msg@[k] != '\n',
            decreases len - j,
        {
            j = j + 1;
        }
        let mut end: usize = j;
        if j < len && end > pos && msg.get_char(end - 1) == '\r' {
            end = end - 1;
        }
        let line = msg.substring_char(pos, end);
        let ghost linev = line@;
        let ghost tail_lines: Seq<Seq<char>> = if j < len {
            spec_lines_of(msg@.skip(j + 1))
        } else {
            Seq::<Seq<char>>::empty()
        };
        proof {
            // the processed line heads the remaining line split
            let d = j - pos;
            assert forall|k: int| 0 <= k < d implies rest[k] != '\n' by {
                assert(rest[k] == msg@[pos + k]);
            }
            if j < len {
                assert(rest[d] == msg@[j as int]);
                lemma_lines_acc_break(rest, Seq::<char>::empty(), d);
                assert(Seq::<char>::empty() + rest.take(d) =~= rest.take(d));
                assert(rest.take(d) =~= msg@.subrange(pos as int, j as int));
                assert(spec_strip_cr(rest.take(d)) =~= linev) by {
                    if end < j {
                        assert(rest.take(d).last() == msg@[j - 1]);
                        assert(rest.take(d).drop_last() =~= msg@.subrange(pos as int, j - 1));
                    } else {
                        if rest.take(d).len() > 0 {
                            assert(rest.take(d).last() == msg@[j - 1]);
                        }
                    }
                }
                assert(rest.skip(d + 1) =~= msg@.skip(j + 1));
                assert(spec_lines_of(rest) == seq![linev] + tail_lines);
            } else {
                lemma_lines_acc_end(rest, Seq::<char>::empty());
                assert(Seq::<char>::empty() + rest =~= rest);
                assert(rest =~= msg@.subrange(pos as int, j as int));
                assert(end == j);
                assert(linev =~= rest);
                assert(rest.len() > 0);
                assert(spec_lines_of(rest) == seq![linev]);
                assert(seq![linev] =~= seq![linev] + tail_lines);
            }
            // and its fragments head the remaining fragment run
            let lines = seq![linev] + tail_lines;
            assert(lines[0] == linev);
            assert(lines.drop_first() =~= tail_lines);
            assert(spec_flat_chunks(lines, MESSAGE_MAX_LEN as nat) == spec_chunks(
                linev,
                MESSAGE_MAX_LEN as nat,
            ) + spec_flat_chunks(tail_lines, MESSAGE_MAX_LEN as nat));
        }
        let frags = chunk_line(line);
        let ghost out_before = out@;
        let fcnt = frags.len();
        let mut fi: usize = 0;
        while fi < fcnt
            invariant
                fcnt == frags@.len(),
                fi <= fcnt,
                out@.len() == out_before.len() + fi,
                forall|k: int|
                    0 <= k < out_before.len() ==> (#[trigger] out@[k])@ == out_before[k]@,
                forall|k: int|
                    0 <= k < fi ==> out@[out_before.len() + k]@ == (#[trigger] frags@[k])@,
            decreases fcnt - fi,
        {
            out.push(frags[fi].clone());
            fi = fi + 1;
        }
        proof {
            let ov = out@.map_values(|f: String| f@);
            let bv = out_before.map_values(|f: String| f@);
            let fv = frags@.map_values(|f: String| f@);
            assert forall|k: int| 0 <= k < ov.len() implies ov[k] == (bv + fv)[k] by {
                if k < out_before.len() {
                    assert(out@[k]@ == out_before[k]@);
                } else {
                    assert(out@[out_before.len() + (k - out_before.len())]@ == frags@[k
                        - out_before.len()]@);
                }
            }
            assert(out@.map_values(|f: String| f@) =~= out_before.map_values(|f: String| f@)
                + frags@.map_values(|f: String| f@));
        }
        if j < len {
            pos = j + 1;
        } else {
            pos = len;
        }
        proof {
            if pos == len {
                assert(msg@.skip(len as int) =~= Seq::<char>::empty());
                assert(spec_lines_of(msg@.skip(len as int)) =~= Seq::<Seq<char>>::empty());
                assert(spec_flat_chunks(
                    spec_lines_of(msg@.skip(pos as int)),
                    MESSAGE_MAX_LEN as nat,
                ) =~= Seq::<Seq<char>>::empty());
            }
            assert(spec_fragments(msg@) =~= out@.map_values(|f: String| f@) + spec_flat_chunks(
                spec_lines_of(msg@.skip(pos as int)),
                MESSAGE_MAX_LEN as nat,
            ));
        }
    }
    proof {
        assert(msg@.skip(len as int) =~= Seq::<char>::empty());
        assert(out@.map_values(|f: String| f@) =~= spec_fragments(msg@));
    }
    out
}

/// One decoded part of a concatenated message: its sequence number and its
/// text.
pub struct SmsPart {
    pub sequence: u8,
    pub text: String,
}

#[verifier::ext_equal]
pub struct SmsPartView {
    pub sequence: u8,
    pub text: Seq<char>,
}

impl View for SmsPart {
    type V = SmsPartView;

    open spec fn view(&self) -> SmsPartView {
        SmsPartView { sequence: self.sequence, text: self.text@ }
    }
}

/// Whether every stored part row decodes and carries concatenation
/// metadata.
pub open spec fn spec_all_parts_decode(rows: Seq<crate::models::MessageView>) -> bool {
    forall|i: int|
        0 <= i < rows.len() ==> ((#[trigger] rows[i]).pdu is Some && pdu_decode_of(
            rows[i].pdu.unwrap(),
        ) is Some && pdu_decode_of(rows[i].pdu.unwrap()).unwrap().1 is Some)
}

/// The decoded parts of the stored rows, in storage order.
pub open spec fn spec_parts_of(rows: Seq<crate::models::MessageView>) -> Seq<SmsPartView> {
    rows.map_values(
        |m: crate::models::MessageView|
            SmsPartView {
                sequence: pdu_decode_of(m.pdu.unwrap()).unwrap().1.unwrap().sequence,
                text: pdu_decode_of(m.pdu.unwrap()).unwrap().0,
            },
    )
}

/// A part slotted into an already sorted run: after every part with the
/// same or a smaller sequence number.
pub open spec fn spec_insert_part(sorted: Seq<SmsPartView>, p: SmsPartView) -> Seq<SmsPartView>
    decreases sorted.len(),
{
    if sorted.len() == 0 {
        seq![p]
    } else if sorted[0].sequence <= p.sequence {
        seq![sorted[0]] + spec_insert_part(sorted.drop_first(), p)
    } else {
        seq![p] + sorted
    }
}

/// The parts in ascending sequence order (insertion sort, stable).
pub open spec fn spec_sort_parts(ps: Seq<SmsPartView>) -> Seq<SmsPartView>
    decreases ps.len(),
{
    if ps.len() == 0 {
        Seq::<SmsPartView>::empty()
    } else {
        spec_insert_part(spec_sort_parts(ps.drop_last()), ps.last())
    }
}

/// The texts of the parts, joined in the order given.
pub open spec fn spec_concat_texts(ps: Seq<SmsPartView>) -> Seq<char>
    decreases ps.len(),
{
    if ps.len() == 0 {
        Seq::<char>::empty()
    } else {
        ps[0].text + spec_concat_texts(ps.drop_first())
    }
}

/// What reassembly yields: the texts joined in ascending sequence order.
pub open spec fn spec_reassemble(ps: Seq<SmsPartView>) -> Seq<char> {
    spec_concat_texts(spec_sort_parts(ps))
}

fn insert_part_sorted(sorted: &mut Vec<SmsPart>, p: SmsPart)
    ensures
        final(sorted)@.map_values(|x: SmsPart| x@) == spec_insert_part(
            old(sorted)@.map_values(|x: SmsPart| x@),
            p@,
        ),
{
    let ghost sv = sorted@.map_values(|x: SmsPart| x@);
    let cnt = sorted.len();
    let mut i: usize = 0;
    while i < cnt && sorted[i].sequence <= p.sequence
        invariant
            cnt == sorted@.len(),
            i <= cnt,
            sv == sorted@.map_values(|x: SmsPart| x@),
            forall|j: int| 0 <= j < i ==> sv[j].sequence <= p@.sequence,
        decreases cnt - i,
    {
        i = i + 1;
    }
    proof {
        if i < cnt {
            assert(sv[i as int].sequence > p@.sequence);
        }
        lemma_insert_part_at(sv, p@, i as int);
    }
    sorted.insert(i, p);
    proof {
        assert(final(sorted)@.map_values(|x: SmsPart| x@) =~= sv.insert(i as int, p@));
    }
}

proof fn lemma_insert_part_at(sv: Seq<SmsPartView>, p: SmsPartView, i: int)
    requires
        0 <= i <= sv.len(),
        forall|j: int| 0 <= j < i ==> (#[trigger] sv[j]).sequence <= p.sequence,
        i < sv.len() ==> sv[i].sequence > p.sequence,
    ensures
        spec_insert_part(sv, p) == sv.insert(i, p),
    decreases i,
{
    if i == 0 {
        if sv.len() == 0 {
            assert(spec_insert_part(sv, p) =~= sv.insert(0, p));
        } else {
            assert(spec_insert_part(sv, p) =~= sv.insert(0, p));
        }
    } else {
        assert(sv[0].sequence <= p.sequence);
        assert forall|j: int| 0 <= j < i - 1 implies (#[trigger] sv.drop_first()[j]).sequence
            <= p.sequence by {
            assert(sv.drop_first()[j] == sv[j + 1]);
        }
        assert(i - 1 < sv.drop_first().len() ==> sv.drop_first()[i - 1].sequence > p.sequence);
        lemma_insert_part_at(sv.drop_first(), p, i - 1);
        assert(spec_insert_part(sv, p) =~= sv.insert(i, p));
    }
}

/// Ascending sequence numbers, ties allowed.
pub open spec fn spec_parts_sorted(ps: Seq<SmsPartView>) -> bool {
    forall|i: int, j: int|
        0 <= i < j < ps.len() ==> (#[trigger] ps[i]).sequence <= (#[trigger] ps[j]).sequence
}

/// No two parts share a sequence number.
pub open spec fn spec_parts_distinct(ps: Seq<SmsPartView>) -> bool {
    forall|i: int, j: int|
        0 <= i < j < ps.len() ==> (#[trigger] ps[i]).sequence != (#[trigger] ps[j]).sequence
}

proof fn lemma_insert_part_props(s: Seq<SmsPartView>, p: SmsPartView)
    requires
        spec_parts_sorted(s),
    ensures
        spec_parts_sorted(spec_insert_part(s, p)),
        spec_insert_part(s, p).to_multiset() =~= s.to_multiset().insert(p),
    decreases s.len(),
{
    broadcast use vstd::seq_lib::group_to_multiset_ensures;
    broadcast use vstd::multiset::group_multiset_axioms;

    let ins = spec_insert_part(s, p);
    if s.len() == 0 {
        assert(ins =~= Seq::<SmsPartView>::empty().push(p));
        assert(ins.to_multiset() =~= s.to_multiset().insert(p));
    } else if s[0].sequence <= p.sequence {
        let df = s.drop_first();
        assert forall|i: int, j: int| 0 <= i < j < df.len() implies (
        #[trigger] df[i]).sequence <= (#[trigger] df[j]).sequence by {
            assert(df[i] == s[i + 1]);
            assert(df[j] == s[j + 1]);
        }
        lemma_insert_part_props(df, p);
        let sub = spec_insert_part(df, p);
        assert(ins == seq![s[0]] + sub);
        // the head stays below everything behind it
        assert forall|i: int, j: int| 0 <= i < j < ins.len() implies (
        #[trigger] ins[i]).sequence <= (#[trigger] ins[j]).sequence by {
            if i == 0 {
                assert(ins[j] == sub[j - 1]);
                assert(sub.to_multiset().count(sub[j - 1]) > 0);
                assert(sub.to_multiset().contains(sub[j - 1]));
                if sub[j - 1] == p {
                    assert(s[0].sequence <= p.sequence);
                } else {
                    assert(df.to_multiset().contains(sub[j - 1]));
                    assert(df.contains(sub[j - 1]));
                    let k = choose|k: int| 0 <= k < df.len() && df[k] == sub[j - 1];
                    assert(df[k] == s[k + 1]);
                    assert(s[0].sequence <= s[k + 1].sequence);
                }
            } else {
                assert(ins[i] == sub[i - 1]);
                assert(ins[j] == sub[j - 1]);
            }
        }
        // multisets: the head commutes with the insertion
        vstd::seq_lib::lemma_multiset_commutative(seq![s[0]], sub);
        vstd::seq_lib::lemma_multiset_commutative(seq![s[0]], df);
        assert(s =~= seq![s[0]] + df);
        assert(ins.to_multiset() =~= s.to_multiset().insert(p));
    } else {
        assert(ins == seq![p] + s);
        assert forall|i: int, j: int| 0 <= i < j < ins.len() implies (
        #[trigger] ins[i]).sequence <= (#[trigger] ins[j]).sequence by {
            if i == 0 {
                assert(ins[j] == s[j - 1]);
                if j - 1 > 0 {
                    assert(s[0].sequence <= s[j - 1].sequence);
                }
            } else {
                assert(ins[i] == s[i - 1]);
                assert(ins[j] == s[j - 1]);
            }
        }
        vstd::seq_lib::lemma_multiset_commutative(seq![p], s);
        assert(seq![p].to_multiset() =~= Seq::<SmsPartView>::empty().push(p).to_multiset());
        assert(ins.to_multiset() =~= s.to_multiset().insert(p));
    }
}

proof fn lemma_sort_parts_props(ps: Seq<SmsPartView>)
    ensures
        spec_parts_sorted(spec_sort_parts(ps)),
        spec_sort_parts(ps).to_multiset() =~= ps.to_multiset(),
    decreases ps.len(),
{
    broadcast use vstd::seq_lib::group_to_multiset_ensures;
    broadcast use vstd::multiset::group_multiset_axioms;

    if ps.len() == 0 {
    } else {
        let head = ps.drop_last();
        lemma_sort_parts_props(head);
        lemma_insert_part_props(spec_sort_parts(head), ps.last());
        assert(head.push(ps.last()) =~= ps);
        assert(head.push(ps.last()).to_multiset() =~= head.to_multiset().insert(ps.last()));
    }
}

proof fn lemma_sorted_unique(a: Seq<SmsPartView>, b: Seq<SmsPartView>)
    requires
        spec_parts_sorted(a),
        spec_parts_sorted(b),
        spec_parts_distinct(a),
        a.to_multiset() == b.to_multiset(),
    ensures
        a == b,
    decreases a.len(),
{
    broadcast use vstd::seq_lib::group_to_multiset_ensures;
    broadcast use vstd::multiset::group_multiset_axioms;

    assert(a.len() == a.to_multiset().len());
    assert(b.len() == b.to_multiset().len());
    assert(a.len() == b.len());
    if a.len() > 0 {
        assert(b.len() > 0);
        // the two heads coincide
        assert(a.to_multiset().count(a[0]) > 0);
        assert(b.to_multiset().contains(a[0]));
        assert(b.contains(a[0]));
        let k = choose|k: int| 0 <= k < b.len() && b[k] == a[0];
        assert(a.to_multiset().contains(b[0]));
        assert(a.contains(b[0]));
        let m = choose|m: int| 0 <= m < a.len() && a[m] == b[0];
        assert(b[0].sequence <= b[k].sequence) by {
            if k > 0 {
                assert(b[0].sequence <= b[k].sequence);
            }
        }
        assert(a[0].sequence <= a[m].sequence) by {
            if m > 0 {
                assert(a[0].sequence <= a[m].sequence);
            }
        }
        assert(a[0].sequence == b[0].sequence);
        assert(m == 0) by {
            if m > 0 {
                assert(a[0].sequence != a[m].sequence);
            }
        }
        assert(b[0] == a[0]);
        // drop the heads and recurse
        let a2 = a.drop_first();
        let b2 = b.drop_first();
        assert(a.remove(0) =~= a2);
        assert(b.remove(0) =~= b2);
        assert(a2.to_multiset() =~= a.to_multiset().remove(a[0]));
        assert(b2.to_multiset() =~= b.to_multiset().remove(b[0]));
        assert forall|i: int, j: int| 0 <= i < j < a2.len() implies (
        #[trigger] a2[i]).sequence <= (#[trigger] a2[j]).sequence && (
        #[trigger] a2[i]).sequence != (#[trigger] a2[j]).sequence by {
            assert(a2[i] == a[i + 1]);
            assert(a2[j] == a[j + 1]);
        }
        assert forall|i: int, j: int| 0 <= i < j < b2.len() implies (
        #[trigger] b2[i]).sequence <= (#[trigger] b2[j]).sequence by {
            assert(b2[i] == b[i + 1]);
            assert(b2[j] == b[j + 1]);
        }
        lemma_sorted_unique(a2, b2);
        assert forall|i: int| 0 <= i < a.len() implies a[i] == b[i] by {
            if i > 0 {
                assert(a2[i - 1] == a[i]);
                assert(b2[i - 1] == b[i]);
            }
        }
        assert(a =~= b);
    } else {
        assert(a =~= b);
    }
}

/// Law: reassembly does not depend on the order the parts were stored in.
/// Two runs of parts holding the same parts in any two orders, with no two
/// parts sharing a sequence number, reassemble to the same text.
pub proof fn lemma_reassemble_any_order(a: Seq<SmsPartView>, b: Seq<SmsPartView>)
    requires
        a.to_multiset() == b.to_multiset(),
        spec_parts_distinct(a),
    ensures
        spec_reassemble(a) == spec_reassemble(b),
{
    broadcast use vstd::seq_lib::group_to_multiset_ensures;
    broadcast use vstd::multiset::group_multiset_axioms;

    lemma_sort_parts_props(a);
    lemma_sort_parts_props(b);
    let sa = spec_sort_parts(a);
    // the sorted run inherits distinct sequence numbers through the multiset
    assert forall|i: int, j: int| 0 <= i < j < a.len() implies a[i] != a[j] by {
        assert(a[i].sequence != a[j].sequence);
    }
    a.lemma_multiset_has_no_duplicates();
    assert forall|x: SmsPartView| sa.to_multiset().contains(x) implies sa.to_multiset().count(x)
        == 1 by {
        assert(a.to_multiset().contains(x));
    }
    sa.lemma_multiset_has_no_duplicates_conv();
    assert forall|i: int, j: int| 0 <= i < j < sa.len() implies (
    #[trigger] sa[i]).sequence != (#[trigger] sa[j]).sequence by {
        assert(sa[i] != sa[j]);
        assert(sa.to_multiset().count(sa[i]) > 0);
        assert(sa.to_multiset().contains(sa[i]));
        assert(a.contains(sa[i]));
        assert(sa.to_multiset().contains(sa[j]));
        assert(a.contains(sa[j]));
        let ki = choose|k: int| 0 <= k < a.len() && a[k] == sa[i];
        let kj = choose|k: int| 0 <= k < a.len() && a[k] == sa[j];
        assert(ki != kj);
        if ki < kj {
            assert(a[ki].sequence != a[kj].sequence);
        } else {
            assert(a[kj].sequence != a[ki].sequence);
        }
    }
    lemma_sorted_unique(sa, spec_sort_parts(b));
}

/// Joins the given parts in ascending sequence order, whatever order they
/// arrive in.
pub fn reassemble_parts(parts: Vec<SmsPart>) -> (r: String)
    ensures
        r@ == spec_reassemble(parts@.map_values(|x: SmsPart| x@)),
{
    let ghost pv = parts@.map_values(|x: SmsPart| x@);
    let mut sorted: Vec<SmsPart> = Vec::new();
    let cnt = parts.len();
    let mut parts = parts;
    let mut i: usize = 0;
    proof {
        assert(parts@.map_values(|x: SmsPart| x@) =~= pv.skip(0));
        assert(spec_sort_parts(pv.take(0)) =~= Seq::<SmsPartView>::empty());
    }
    // consume the parts front to back, keeping `sorted` sorted
    while i < cnt
        invariant
            cnt == pv.len(),
            i <= cnt,
            parts@.map_values(|x: SmsPart| x@) == pv.skip(i as int),
            sorted@.map_values(|x: SmsPart| x@) == spec_sort_parts(pv.take(i as int)),
        decreases cnt - i,
    {
        let ghost before = parts@.map_values(|x: SmsPart| x@);
        let ghost pexec = parts@;
        proof {
            assert(parts@.len() == before.len());
            assert(before.len() == pv.skip(i as int).len());
        }
        let p = parts.remove(0);
        proof {
            assert(p@ == before[0]);
            assert(before[0] == pv[i as int]);
            assert(parts@ == pexec.remove(0));
            assert(parts@.map_values(|x: SmsPart| x@) =~= before.remove(0));
            assert(before.remove(0) =~= pv.skip(i + 1));
            assert(parts@.map_values(|x: SmsPart| x@) =~= pv.skip(i + 1));
            assert(pv.take(i + 1).drop_last() == pv.take(i as int));
            assert(pv.take(i + 1).last() == pv[i as int]);
        }
        insert_part_sorted(&mut sorted, p);
        i = i + 1;
        proof {
            assert(sorted@.map_values(|x: SmsPart| x@) == spec_sort_parts(pv.take(i as int)));
        }
    }
    let mut out = String::new();
    let scnt = sorted.len();
    let mut k: usize = 0;
    let ghost sortedv = sorted@.map_values(|x: SmsPart| x@);
    proof {
        assert(pv.take(cnt as int) == pv);
        assert(sortedv.skip(0) =~= sortedv);
        assert(out@ + spec_concat_texts(sortedv) =~= spec_concat_texts(sortedv));
    }
    while k < scnt
        invariant
            scnt == sorted@.len(),
            k <= scnt,
            sortedv == sorted@.map_values(|x: SmsPart| x@),
            spec_concat_texts(sortedv) == out@ + spec_concat_texts(sortedv.skip(k as int)),
        decreases scnt - k,
    {
        proof {
            assert(sortedv.skip(k as int)[0] == sortedv[k as int]);
            assert(sortedv.skip(k as int).drop_first() =~= sortedv.skip(k + 1));
        }
        out.append(sorted[k].text.as_str());
        k = k + 1;
    }
    proof {
        assert(sortedv.skip(scnt as int) =~= Seq::<SmsPartView>::empty());
        assert(out@ + Seq::<char>::empty() =~= out@);
    }
    out
}

} // verus!

//! Small helpers shared by the rest of the library: character classes,
//! string equality, and decimal rendering / parsing.

use vstd::prelude::*;

verus! {

/// Relies on `String::push`: appends exactly the given character.
pub assume_specification[ String::push ](s: &mut String, ch: char)
    ensures
        final(s)@ == old(s)@.push(ch),
;

pub open spec fn spec_is_digit(c: char) -> bool {
    '0' <= c && c <= '9'
}

pub fn is_digit(c: char) -> (r: bool)
    ensures
        r == spec_is_digit(c),
{
    '0' <= c && c <= '9'
}

pub open spec fn spec_is_ascii_alphanumeric(c: char) -> bool {
    ('0' <= c && c <= '9') || ('a' <= c && c <= 'z') || ('A' <= c && c <= 'Z')
}

pub fn is_ascii_alphanumeric(c: char) -> (r: bool)
    ensures
        r == spec_is_ascii_alphanumeric(c),
{
    ('0' <= c && c <= '9') || ('a' <= c && c <= 'z') || ('A' <= c && c <= 'Z')
}

pub open spec fn spec_is_ascii_alphabetic(c: char) -> bool {
    ('a' <= c && c <= 'z') || ('A' <= c && c <= 'Z')
}

pub fn is_ascii_alphabetic(c: char) -> (r: bool)
    ensures
        r == spec_is_ascii_alphabetic(c),
{
    ('a' <= c && c <= 'z') || ('A' <= c && c <= 'Z')
}

/// ASCII lower-casing of one character; other characters pass through.
pub open spec fn spec_to_ascii_lower(c: char) -> char {
    if 'A' <= c && c <= 'Z' {
        ((c as u8) + 32) as char
    } else {
        c
    }
}

pub fn to_ascii_lower(c: char) -> (r: char)
    ensures
        r == spec_to_ascii_lower(c),
{
    if 'A' <= c && c <= 'Z' {
        ((c as u8) + 32) as char
    } else {
        c
    }
}

pub open spec fn spec_lower_str(s: Seq<char>) -> Seq<char> {
    s.map_values(|c: char| spec_to_ascii_lower(c))
}

/// ASCII lower-casing of a whole string.
pub fn lower_str(s: &str) -> (r: String)
    ensures
        r@ == spec_lower_str(s@),
{
    let len = s.unicode_len();
    let mut out = String::new();
    let mut i: usize = 0;
    while i < len
        invariant
            len == s@.len(),
            i <= len,
            out@ == spec_lower_str(s@.subrange(0, i as int)),
        decreases len - i,
    {
        let c = s.get_char(i);
        out.push(to_ascii_lower(c));
        i = i + 1;
        proof {
            assert(s@.subrange(0, i as int).drop_last() == s@.subrange(0, i - 1));
            assert(out@ =~= spec_lower_str(s@.subrange(0, i as int)));
        }
    }
    proof {
        assert(s@.subrange(0, len as int) == s@);
    }
    out
}

/// Character-wise string equality.
pub fn str_eq(a: &str, b: &str) -> (r: bool)
    ensures
        r == (a@ == b@),
{
    let alen = a.unicode_len();
    let blen = b.unicode_len();
    if alen != blen {
        proof {
            assert(a@ != b@);
        }
        return false;
    }
    let mut i: usize = 0;
    while i < alen
        invariant
            alen == a@.len(),
            alen == b@.len(),
            i <= alen,
            forall|j: int| 0 <= j < i ==> a@[j] == b@[j],
        decreases alen - i,
    {
        if a.get_char(i) != b.get_char(i) {
            proof {
                assert(a@ != b@);
            }
            return false;
        }
        i = i + 1;
    }
    proof {
        assert(a@ =~= b@);
    }
    true
}

pub fn string_eq(a: &String, b: &str) -> (r: bool)
    ensures
        r == (a@ == b@),
{
    str_eq(a.as_str(), b)
}

/// Whether a vector of numbers holds the given value.
pub fn contains_i32(v: &Vec<i32>, x: i32) -> (r: bool)
    ensures
        r == v@.contains(x),
{
    let n = v.len();
    let mut i: usize = 0;
    while i < n
        invariant
            n == v@.len(),
            i <= n,
            forall|j: int| 0 <= j < i ==> v@[j] != x,
        decreases n - i,
    {
        if v[i] == x {
            return true;
        }
        i = i + 1;
    }
    false
}

/// Whether one string starts with another.
pub fn str_starts_with(s: &str, prefix: &str) -> (r: bool)
    ensures
        r == prefix@.is_prefix_of(s@),
{
    let plen = prefix.unicode_len();
    let slen = s.unicode_len();
    if plen > slen {
        proof {
            assert(!prefix@.is_prefix_of(s@));
        }
        return false;
    }
    let mut i: usize = 0;
    while i < plen
        invariant
            plen == prefix@.len(),
            slen == s@.len(),
            plen <= slen,
            i <= plen,
            forall|j: int| 0 <= j < i ==> s@[j] == prefix@[j],
        decreases plen - i,
    {
        if s.get_char(i) != prefix.get_char(i) {
            proof {
                assert(s@.subrange(0, plen as int)[i as int] != prefix@[i as int]);
                assert(!prefix@.is_prefix_of(s@));
            }
            return false;
        }
        i = i + 1;
    }
    proof {
        assert(prefix@ =~= s@.subrange(0, plen as int));
    }
    true
}

/// The words of a text split at single spaces; consecutive spaces yield
/// empty words, as `str::split` yields them.
pub open spec fn spec_split_spaces_acc(s: Seq<char>, cur: Seq<char>) -> Seq<Seq<char>>
    decreases s.len(),
{
    if s.len() == 0 {
        seq![cur]
    } else if s[0] == ' ' {
        seq![cur] + spec_split_spaces_acc(s.drop_first(), Seq::<char>::empty())
    } else {
        spec_split_spaces_acc(s.drop_first(), cur.push(s[0]))
    }
}

pub open spec fn spec_split_spaces(s: Seq<char>) -> Seq<Seq<char>> {
    spec_split_spaces_acc(s, Seq::<char>::empty())
}

/// Splitting always yields at least one word.
pub proof fn lemma_split_spaces_nonempty(s: Seq<char>, cur: Seq<char>)
    ensures
        spec_split_spaces_acc(s, cur).len() >= 1,
    decreases s.len(),
{
    if s.len() > 0 && s[0] != ' ' {
        lemma_split_spaces_nonempty(s.drop_first(), cur.push(s[0]));
    }
}

/// Splits a text at single spaces.
pub fn tokenize_spaces(s: &str) -> (r: Vec<String>)
    ensures
        r@.map_values(|w: String| w@) == spec_split_spaces(s@),
{
    let len = s.unicode_len();
    let mut out: Vec<String> = Vec::new();
    let mut cur = String::new();
    let mut i: usize = 0;
    proof {
        assert(s@.skip(0) =~= s@);
    }
    while i < len
        invariant
            len == s@.len(),
            i <= len,
            spec_split_spaces(s@) == out@.map_values(|w: String| w@) + spec_split_spaces_acc(
                s@.skip(i as int),
                cur@,
            ),
        decreases len - i,
    {
        let c = s.get_char(i);
        proof {
            assert(s@.skip(i as int)[0] == s@[i as int]);
            assert(s@.skip(i as int).drop_first() =~= s@.skip(i + 1));
        }
        if c == ' ' {
            let ghost ob = out@.map_values(|w: String| w@);
            out.push(cur);
            cur = String::new();
            proof {
                assert(out@.map_values(|w: String| w@) + spec_split_spaces_acc(
                    s@.skip(i + 1),
                    cur@,
                ) =~= ob + (seq![out@.last()@] + spec_split_spaces_acc(
                    s@.skip(i + 1),
                    Seq::<char>::empty(),
                )));
            }
        } else {
            cur.push(c);
        }
        i = i + 1;
    }
    proof {
        assert(s@.skip(len as int) =~= Seq::<char>::empty());
    }
    let ghost ob = out@.map_values(|w: String| w@);
    out.push(cur);
    proof {
        assert(out@.map_values(|w: String| w@) =~= ob.push(out@.last()@));
        assert(out@.map_values(|w: String| w@) =~= spec_split_spaces(s@));
    }
    out
}

pub open spec fn spec_digit_char(d: u8) -> char {
    ((48 + d) as char)
}

pub fn digit_char(d: u8) -> (r: char)
    requires
        d < 10,
    ensures
        r == spec_digit_char(d),
{
    (48 + d) as char
}

/// The decimal rendering of an unsigned number, most significant digit first.
pub open spec fn spec_dec_u64(v: u64) -> Seq<char>
    decreases v,
{
    if v < 10 {
        seq![spec_digit_char(v as u8)]
    } else {
        spec_dec_u64(v / 10).push(spec_digit_char((v % 10) as u8))
    }
}

pub fn dec_u64(v: u64) -> (r: String)
    ensures
        r@ == spec_dec_u64(v),
    decreases v,
{
    if v < 10 {
        let mut s = String::new();
        s.push(digit_char(v as u8));
        s
    } else {
        let mut s = dec_u64(v / 10);
        s.push(digit_char((v % 10) as u8));
        s
    }
}

/// The decimal rendering of a signed number, with a leading minus sign when
/// it is negative.
pub open spec fn spec_dec_i64(v: i64) -> Seq<char> {
    if v >= 0 {
        spec_dec_u64(v as u64)
    } else {
        seq!['-'] + spec_dec_u64((-(v as int)) as u64)
    }
}

pub fn dec_i64(v: i64) -> (r: String)
    ensures
        r@ == spec_dec_i64(v),
{
    if v >= 0 {
        dec_u64(v as u64)
    } else {
        let mag: u64 = if v == i64::MIN {
            9223372036854775808u64
        } else {
            (-v) as u64
        };
        let digits = dec_u64(mag);
        let mut s = String::new();
        s.push('-');
        let mut i: usize = 0;
        let dlen = digits.unicode_len();
        while i < dlen
            invariant
                dlen == digits@.len(),
                i <= dlen,
                s@ == seq!['-'] + digits@.subrange(0, i as int),
            decreases dlen - i,
        {
            s.push(digits.as_str().get_char(i));
            i = i + 1;
            proof {
                assert(s@ =~= seq!['-'] + digits@.subrange(0, i as int));
            }
        }
        proof {
            assert(digits@.subrange(0, dlen as int) == digits@);
        }
        s
    }
}

/// The numeric value of a digit string, read left to right.
pub open spec fn spec_digits_val(s: Seq<char>) -> int
    decreases s.len(),
{
    if s.len() == 0 {
        0
    } else {
        spec_digits_val(s.drop_last()) * 10 + (s.last() as int - 48)
    }
}

pub open spec fn spec_all_digits(s: Seq<char>) -> bool {
    forall|i: int| 0 <= i < s.len() ==> spec_is_digit(#[trigger] s[i])
}

pub open spec fn spec_sign_neg(s: Seq<char>) -> bool {
    s.len() > 0 && s[0] == '-'
}

pub open spec fn spec_num_body(s: Seq<char>) -> Seq<char> {
    if s.len() > 0 && (s[0] == '-' || s[0] == '+') {
        s.drop_first()
    } else {
        s
    }
}

/// What parsing a decimal string as an `i64` yields: an optional sign, then
/// at least one digit, and a value that fits.
pub open spec fn spec_parse_i64(s: Seq<char>) -> Option<i64> {
    let rest = spec_num_body(s);
    if rest.len() == 0 || !spec_all_digits(rest) {
        None::<i64>
    } else {
        let v = if spec_sign_neg(s) {
            -spec_digits_val(rest)
        } else {
            spec_digits_val(rest)
        };
        if i64::MIN <= v <= i64::MAX {
            Some(v as i64)
        } else {
            None
        }
    }
}

proof fn lemma_digits_val_nonneg(s: Seq<char>)
    requires
        spec_all_digits(s),
    ensures
        spec_digits_val(s) >= 0,
    decreases s.len(),
{
    if s.len() > 0 {
        lemma_digits_val_nonneg(s.drop_last());
    }
}

/// Parses a decimal integer with an optional leading sign, exactly when the
/// string is well formed and the value fits in an `i64`.
pub fn parse_i64(s: &str) -> (r: Option<i64>)
    ensures
        r == spec_parse_i64(s@),
{
    let len = s.unicode_len();
    if len == 0 {
        return None;
    }
    let first = s.get_char(0);
    let neg = first == '-';
    let mut i: usize = if first == '-' || first == '+' {
        1
    } else {
        0
    };
    let ghost start: int = i as int;
    let ghost rest: Seq<char> = s@.subrange(start, len as int);
    proof {
        if first == '-' || first == '+' {
            assert(rest =~= s@.drop_first());
        } else {
            assert(rest =~= s@);
        }
    }
    if i >= len {
        return None;
    }
    let limit: u64 = if neg {
        9223372036854775808u64
    } else {
        9223372036854775807u64
    };
    let mut acc: u64 = 0;
    let mut over: bool = false;
    while i < len
        invariant
            len == s@.len(),
            0 <= start <= i <= len,
            start < len,
            rest == s@.subrange(start, len as int),
            rest == spec_num_body(s@),
            neg == spec_sign_neg(s@),
            spec_all_digits(s@.subrange(start, i as int)),
            !over ==> acc == spec_digits_val(s@.subrange(start, i as int)) && acc <= limit,
            over ==> spec_digits_val(s@.subrange(start, i as int)) > limit,
            limit >= 9223372036854775807u64,
        decreases len - i,
    {
        let c = s.get_char(i);
        if !is_digit(c) {
            proof {
                assert(rest[i - start] == c);
                assert(!spec_is_digit(rest[i - start]));
                assert(!spec_all_digits(rest));
            }
            return None;
        }
        let d: u64 = (c as u64) - 48;
        proof {
            assert(s@.subrange(start, i + 1).drop_last() == s@.subrange(start, i as int));
            if !over {
                lemma_digits_val_nonneg(s@.subrange(start, i as int));
            }
        }
        if over {
            proof {
                let prev = spec_digits_val(s@.subrange(start, i as int));
                assert(spec_digits_val(s@.subrange(start, i + 1)) == prev * 10 + (c as int - 48));
                assert(prev * 10 + (c as int - 48) > limit) by (nonlinear_arith)
                    requires
                        prev > limit,
                        limit >= 0,
                        c as int - 48 >= 0,
                ;
            }
        } else if acc > (limit - d) / 10 {
            over = true;
            proof {
                assert(spec_digits_val(s@.subrange(start, i + 1)) == acc * 10 + d);
                assert(acc * 10 + d > limit) by (nonlinear_arith)
                    requires
                        acc > (limit - d) / 10,
                        d < 10,
                        limit >= 9223372036854775807u64,
                        acc >= 0,
                ;
            }
        } else {
            proof {
                assert(acc * 10 + d <= limit) by (nonlinear_arith)
                    requires
                        acc <= (limit - d) / 10,
                        d < 10,
                        limit >= d,
                ;
            }
            acc = acc * 10 + d;
        }
        i = i + 1;
    }
    proof {
        assert(s@.subrange(start, len as int) == rest);
        assert(spec_all_digits(rest));
        lemma_digits_val_nonneg(rest);
    }
    if over {
        proof {
            assert(spec_digits_val(rest) > limit);
        }
        return None;
    }
    if neg {
        if acc == 9223372036854775808u64 {
            Some(i64::MIN)
        } else {
            Some(-(acc as i64))
        }
    } else {
        Some(acc as i64)
    }
}

} // verus!

//! Ghost nickname derivation.
//!
//! A contact's IRC nickname is a deterministic transliteration of its
//! address text: alphanumerics pass through, `+` becomes `I`, a fixed
//! escape set passes through, everything else becomes `_`; the result is
//! prefixed with `S` unless the first transliterated character is already
//! a letter.

use vstd::prelude::*;
use crate::util;

verus! {

/// The characters IRC allows in nicknames besides letters and digits.
pub open spec fn spec_is_nick_escape(c: char) -> bool {
    c == '_' || c == '-' || c == '\\' || c == '[' || c == ']' || c == '{' || c == '}' || c == '^'
        || c == '`' || c == '|'
}

pub fn is_nick_escape(c: char) -> (r: bool)
    ensures
        r == spec_is_nick_escape(c),
{
    c == '_' || c == '-' || c == '\\' || c == '[' || c == ']' || c == '{' || c == '}' || c == '^'
        || c == '`' || c == '|'
}

/// A character the derived nickname may contain.
pub open spec fn spec_nick_allowed(c: char) -> bool {
    util::spec_is_ascii_alphanumeric(c) || spec_is_nick_escape(c)
}

/// The transliteration of one character of the address text.
pub open spec fn spec_nick_char(c: char) -> char {
    if c == '+' {
        'I'
    } else if spec_is_nick_escape(c) {
        c
    } else if util::spec_is_ascii_alphanumeric(c) {
        c
    } else {
        '_'
    }
}

pub fn nick_char(c: char) -> (r: char)
    ensures
        r == spec_nick_char(c),
{
    if c == '+' {
        'I'
    } else if is_nick_escape(c) {
        c
    } else if util::is_ascii_alphanumeric(c) {
        c
    } else {
        '_'
    }
}

pub open spec fn spec_translit(s: Seq<char>) -> Seq<char> {
    s.map_values(|c: char| spec_nick_char(c))
}

/// The nickname derived from the address text: the transliteration,
/// prefixed with `S` unless it already starts with a letter.
pub open spec fn spec_nick_of(s: Seq<char>) -> Seq<char> {
    let t = spec_translit(s);
    if t.len() > 0 && util::spec_is_ascii_alphabetic(t[0]) {
        t
    } else {
        seq!['S'] + t
    }
}

/// Derives the IRC nickname for an address text.
pub fn string_to_irc_nick(inp: &str) -> (r: String)
    ensures
        r@ == spec_nick_of(inp@),
{
    let len = inp.unicode_len();
    let mut t = String::new();
    let mut i: usize = 0;
    while i < len
        invariant
            len == inp@.len(),
            i <= len,
            t@ == spec_translit(inp@.subrange(0, i as int)),
        decreases len - i,
    {
        t.push(nick_char(inp.get_char(i)));
        i = i + 1;
        proof {
            assert(t@ =~= spec_translit(inp@.subrange(0, i as int)));
        }
    }
    proof {
        assert(inp@.subrange(0, len as int) == inp@);
    }
    if t.unicode_len() > 0 {
        let c0 = t.as_str().get_char(0);
        if util::is_ascii_alphabetic(c0) {
            return t;
        }
    }
    let mut out = String::new();
    out.push('S');
    out.append(t.as_str());
    proof {
        assert(out@ =~= seq!['S'] + spec_translit(inp@));
    }
    out
}

/// Law: the derived nickname holds only allowed nickname characters,
/// whatever the address text.
pub proof fn lemma_nick_chars_allowed(s: Seq<char>)
    ensures
        forall|i: int|
            0 <= i < spec_nick_of(s).len() ==> spec_nick_allowed(#[trigger] spec_nick_of(s)[i]),
{
    let t = spec_translit(s);
    assert forall|i: int| 0 <= i < t.len() implies spec_nick_allowed(#[trigger] t[i]) by {
        assert(t[i] == spec_nick_char(s[i]));
    }
    assert(util::spec_is_ascii_alphanumeric('S'));
}

/// What one character of a group name contributes to its channel name.
pub open spec fn spec_chan_piece(c: char) -> Seq<char> {
    if c == '_' || c == '-' || c == '#' {
        seq![c]
    } else if c == ' ' {
        seq!['-']
    } else if util::spec_is_ascii_alphanumeric(c) {
        seq![util::spec_to_ascii_lower(c)]
    } else {
        Seq::<char>::empty()
    }
}

/// The IRC channel name derived from a group name: kept characters only,
/// lower-cased, spaces turned into dashes.
pub open spec fn spec_chan_of(s: Seq<char>) -> Seq<char>
    decreases s.len(),
{
    if s.len() == 0 {
        Seq::<char>::empty()
    } else {
        spec_chan_piece(s[0]) + spec_chan_of(s.drop_first())
    }
}

/// Derives an IRC channel name fragment from a group name.
pub fn string_to_irc_chan(inp: &str) -> (r: String)
    ensures
        r@ == spec_chan_of(inp@),
{
    let len = inp.unicode_len();
    let mut out = String::new();
    let mut i: usize = 0;
    proof {
        assert(inp@.skip(0) =~= inp@);
    }
    while i < len
        invariant
            len == inp@.len(),
            i <= len,
            spec_chan_of(inp@) == out@ + spec_chan_of(inp@.skip(i as int)),
        decreases len - i,
    {
        let c = inp.get_char(i);
        proof {
            assert(inp@.skip(i as int)[0] == inp@[i as int]);
            assert(inp@.skip(i as int).drop_first() =~= inp@.skip(i + 1));
        }
        if c == '_' || c == '-' || c == '#' {
            out.push(c);
        } else if c == ' ' {
            out.push('-');
        } else if util::is_ascii_alphanumeric(c) {
            out.push(util::to_ascii_lower(c));
        }
        i = i + 1;
        proof {
            assert(spec_chan_of(inp@) =~= out@ + spec_chan_of(inp@.skip(i as int)));
        }
    }
    proof {
        assert(inp@.skip(len as int) =~= Seq::<char>::empty());
        assert(out@ + Seq::<char>::empty() =~= out@);
    }
    out
}

/// The nickname automatically derived for a phone address.
pub open spec fn spec_nick_for_address(a: crate::addr::AddrView) -> Seq<char> {
    spec_nick_of(crate::addr::spec_addr_string(a))
}

/// Derives the automatic nickname for a phone address.
pub fn make_nick_for_address(addr: &crate::addr::PduAddr) -> (r: String)
    ensures
        r@ == spec_nick_for_address(addr@),
{
    let s = crate::addr::addr_to_string(addr);
    string_to_irc_nick(s.as_str())
}

} // verus!

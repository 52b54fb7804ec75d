//! The address codec and nickname derivation.

use sms_irc::addr::{
    normalize_address, un_normalize_address, parse_addr, addr_to_string, PduAddr, TypeOfNumber,
    Npi,
};
use sms_irc::nick::{string_to_irc_nick, string_to_irc_chan, make_nick_for_address};

fn intl(digits: Vec<u8>) -> PduAddr {
    PduAddr { ton: TypeOfNumber::International, npi: Npi::IsdnTelephone, digits }
}

#[test]
fn address_round_trip() {
    let a = intl(vec![4, 9, 1, 2, 3]);
    let num = normalize_address(&a);
    let back = un_normalize_address(num.as_str()).expect("round trip");
    assert_eq!(back.ton, TypeOfNumber::International);
    assert_eq!(back.npi, Npi::IsdnTelephone);
    assert_eq!(back.digits, vec![4, 9, 1, 2, 3]);
}

#[test]
fn address_round_trip_national() {
    let a = PduAddr { ton: TypeOfNumber::National, npi: Npi::Private, digits: vec![7, 7, 7] };
    let num = normalize_address(&a);
    let back = un_normalize_address(num.as_str()).expect("round trip");
    assert_eq!(back.ton, TypeOfNumber::National);
    assert_eq!(back.npi, Npi::Private);
    assert_eq!(back.digits, vec![7, 7, 7]);
}

#[test]
fn normalize_is_hex() {
    let a = intl(vec![1, 2]);
    assert_eq!(normalize_address(&a), "910102");
}

#[test]
fn un_normalize_rejects_short_strings() {
    assert!(un_normalize_address("91").is_none());
    assert!(un_normalize_address("").is_none());
}

#[test]
fn un_normalize_rejects_bad_hex() {
    assert!(un_normalize_address("91zz").is_none());
}

#[test]
fn un_normalize_rejects_bad_type_octet() {
    // 0x40 decodes to an unassigned type of number
    assert!(un_normalize_address("4001").is_none());
}

#[test]
fn un_normalize_takes_lone_trailing_digit() {
    let a = un_normalize_address("911").expect("odd tail decodes");
    assert_eq!(a.digits, vec![1]);
}

#[test]
fn parse_addr_keeps_digits_and_plus() {
    let a = parse_addr("+49 (123) 45");
    assert_eq!(a.ton, TypeOfNumber::International);
    assert_eq!(a.digits, vec![4, 9, 1, 2, 3, 4, 5]);
    let b = parse_addr("0170x1");
    assert_eq!(b.ton, TypeOfNumber::Unknown);
    assert_eq!(b.digits, vec![0, 1, 7, 0, 1]);
}

#[test]
fn addr_to_string_shows_plus_for_international() {
    let a = intl(vec![4, 9, 1]);
    assert_eq!(addr_to_string(&a), "+491");
    let b = PduAddr { ton: TypeOfNumber::Unknown, npi: Npi::IsdnTelephone, digits: vec![1, 2] };
    assert_eq!(addr_to_string(&b), "12");
}

#[test]
fn nick_transliteration() {
    // a plus becomes I, which is a letter, so the prefix is dropped
    assert_eq!(string_to_irc_nick("+4912345"), "I4912345");
    // a leading digit keeps the S prefix
    assert_eq!(string_to_irc_nick("12ab"), "S12ab");
    // escape characters pass through; everything else becomes underscores
    assert_eq!(string_to_irc_nick("a b[c]!"), "a_b[c]_");
}

#[test]
fn nick_is_deterministic() {
    let a = intl(vec![4, 9, 1, 2, 3, 4, 5]);
    let n1 = make_nick_for_address(&a);
    let n2 = make_nick_for_address(&a);
    assert_eq!(n1, n2);
    assert_eq!(n1, "I4912345");
}

#[test]
fn nick_allowed_characters_only() {
    let n = string_to_irc_nick("weird !@#$%^&*() input");
    for c in n.chars() {
        let ok = c.is_ascii_alphanumeric()
            || matches!(c, '_' | '-' | '\\' | '[' | ']' | '{' | '}' | '^' | '`' | '|');
        assert!(ok, "bad nick character: {:?}", c);
    }
}

#[test]
fn chan_derivation() {
    assert_eq!(string_to_irc_chan("My Group!"), "my-group");
    assert_eq!(string_to_irc_chan("#Chan_One-2"), "#chan_one-2");
}

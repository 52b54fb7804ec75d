//! Phone addresses and their canonical string encoding.
//!
//! A stored phone number is the hex rendering of the address-type octet
//! followed by the hex rendering of each number digit byte.  Encoding and
//! decoding round-trip exactly; `lemma_addr_round_trip` states that law.

use vstd::prelude::*;

verus! {

/// Type-of-number half of the address-type octet.
#[derive(Clone, Copy, PartialEq, Eq, Structural, Debug)]
pub enum TypeOfNumber {
    Unknown,
    International,
    National,
    Special,
    Gsm,
    Short,
    Reserved,
}

/// Numbering-plan-identification half of the address-type octet.
#[derive(Clone, Copy, PartialEq, Eq, Structural, Debug)]
pub enum Npi {
    NetworkDetermined,
    IsdnTelephone,
    Data,
    Telex,
    National,
    Private,
    Ermes,
}

pub open spec fn spec_ton_bits(t: TypeOfNumber) -> u8 {
    match t {
        TypeOfNumber::Unknown => 0,
        TypeOfNumber::International => 16,
        TypeOfNumber::National => 32,
        TypeOfNumber::Special => 48,
        TypeOfNumber::Gsm => 80,
        TypeOfNumber::Short => 96,
        TypeOfNumber::Reserved => 112,
    }
}

pub fn ton_bits(t: TypeOfNumber) -> (r: u8)
    ensures
        r == spec_ton_bits(t),
{
    match t {
        TypeOfNumber::Unknown => 0,
        TypeOfNumber::International => 16,
        TypeOfNumber::National => 32,
        TypeOfNumber::Special => 48,
        TypeOfNumber::Gsm => 80,
        TypeOfNumber::Short => 96,
        TypeOfNumber::Reserved => 112,
    }
}

pub open spec fn spec_npi_bits(p: Npi) -> u8 {
    match p {
        Npi::NetworkDetermined => 0,
        Npi::IsdnTelephone => 1,
        Npi::Data => 3,
        Npi::Telex => 4,
        Npi::National => 8,
        Npi::Private => 9,
        Npi::Ermes => 10,
    }
}

pub fn npi_bits(p: Npi) -> (r: u8)
    ensures
        r == spec_npi_bits(p),
{
    match p {
        Npi::NetworkDetermined => 0,
        Npi::IsdnTelephone => 1,
        Npi::Data => 3,
        Npi::Telex => 4,
        Npi::National => 8,
        Npi::Private => 9,
        Npi::Ermes => 10,
    }
}

pub open spec fn spec_ton_from_bits(v: u8) -> Option<TypeOfNumber> {
    if v == 0 {
        Some(TypeOfNumber::Unknown)
    } else if v == 16 {
        Some(TypeOfNumber::International)
    } else if v == 32 {
        Some(TypeOfNumber::National)
    } else if v == 48 {
        Some(TypeOfNumber::Special)
    } else if v == 80 {
        Some(TypeOfNumber::Gsm)
    } else if v == 96 {
        Some(TypeOfNumber::Short)
    } else if v == 112 {
        Some(TypeOfNumber::Reserved)
    } else {
        None
    }
}

pub fn ton_from_bits(v: u8) -> (r: Option<TypeOfNumber>)
    ensures
        r == spec_ton_from_bits(v),
{
    if v == 0 {
        Some(TypeOfNumber::Unknown)
    } else if v == 16 {
        Some(TypeOfNumber::International)
    } else if v == 32 {
        Some(TypeOfNumber::National)
    } else if v == 48 {
        Some(TypeOfNumber::Special)
    } else if v == 80 {
        Some(TypeOfNumber::Gsm)
    } else if v == 96 {
        Some(TypeOfNumber::Short)
    } else if v == 112 {
        Some(TypeOfNumber::Reserved)
    } else {
        None
    }
}

pub open spec fn spec_npi_from_bits(v: u8) -> Option<Npi> {
    if v == 0 {
        Some(Npi::NetworkDetermined)
    } else if v == 1 {
        Some(Npi::IsdnTelephone)
    } else if v == 3 {
        Some(Npi::Data)
    } else if v == 4 {
        Some(Npi::Telex)
    } else if v == 8 {
        Some(Npi::National)
    } else if v == 9 {
        Some(Npi::Private)
    } else if v == 10 {
        Some(Npi::Ermes)
    } else {
        None
    }
}

pub fn npi_from_bits(v: u8) -> (r: Option<Npi>)
    ensures
        r == spec_npi_from_bits(v),
{
    if v == 0 {
        Some(Npi::NetworkDetermined)
    } else if v == 1 {
        Some(Npi::IsdnTelephone)
    } else if v == 3 {
        Some(Npi::Data)
    } else if v == 4 {
        Some(Npi::Telex)
    } else if v == 8 {
        Some(Npi::National)
    } else if v == 9 {
        Some(Npi::Private)
    } else if v == 10 {
        Some(Npi::Ermes)
    } else {
        None
    }
}

/// The address-type octet on the wire: high bit set, then the type of
/// number in bits 4 to 6 and the numbering plan in the low bits.
pub open spec fn spec_toa_byte(t: TypeOfNumber, p: Npi) -> u8 {
    (128 + spec_ton_bits(t) + spec_npi_bits(p)) as u8
}

pub fn toa_byte(t: TypeOfNumber, p: Npi) -> (r: u8)
    ensures
        r == spec_toa_byte(t, p),
{
    128 + ton_bits(t) + npi_bits(p)
}

pub open spec fn spec_decode_toa(b: u8) -> Option<(TypeOfNumber, Npi)> {
    match (spec_ton_from_bits((((b / 16) % 8) * 16) as u8), spec_npi_from_bits(b % 16)) {
        (Some(t), Some(p)) => Some((t, p)),
        _ => None,
    }
}

pub fn decode_toa(b: u8) -> (r: Option<(TypeOfNumber, Npi)>)
    ensures
        r == spec_decode_toa(b),
{
    match (ton_from_bits(((b / 16) % 8) * 16), npi_from_bits(b % 16)) {
        (Some(t), Some(p)) => Some((t, p)),
        _ => None,
    }
}

/// A phone address: its type octet halves and the digit bytes of the number.
#[derive(Clone, Debug)]
pub struct PduAddr {
    pub ton: TypeOfNumber,
    pub npi: Npi,
    pub digits: Vec<u8>,
}

#[verifier::ext_equal]
pub struct AddrView {
    pub ton: TypeOfNumber,
    pub npi: Npi,
    pub digits: Seq<u8>,
}

impl View for PduAddr {
    type V = AddrView;

    open spec fn view(&self) -> AddrView {
        AddrView { ton: self.ton, npi: self.npi, digits: self.digits@ }
    }
}

impl PduAddr {
    /// An international ISDN address holding the given digits.
    pub fn international(digits: Vec<u8>) -> (r: PduAddr)
        ensures
            r@ == (AddrView {
                ton: TypeOfNumber::International,
                npi: Npi::IsdnTelephone,
                digits: digits@,
            }),
    {
        PduAddr { ton: TypeOfNumber::International, npi: Npi::IsdnTelephone, digits }
    }

    pub fn addr_eq(&self, other: &PduAddr) -> (r: bool)
        ensures
            r == (self@ == other@),
    {
        if !(self.ton == other.ton && self.npi == other.npi) {
            proof {
                assert(self@ != other@);
            }
            return false;
        }
        if self.digits.len() != other.digits.len() {
            proof {
                assert(self@.digits.len() != other@.digits.len());
            }
            return false;
        }
        let n = self.digits.len();
        let mut i: usize = 0;
        while i < n
            invariant
                n == self.digits@.len(),
                n == other.digits@.len(),
                i <= n,
                self.ton == other.ton,
                self.npi == other.npi,
                forall|j: int| 0 <= j < i ==> self.digits@[j] == other.digits@[j],
            decreases n - i,
        {
            if self.digits[i] != other.digits[i] {
                proof {
                    assert(self@.digits[i as int] != other@.digits[i as int]);
                }
                return false;
            }
            i = i + 1;
        }
        proof {
            assert(self.digits@ =~= other.digits@);
            assert(self@ =~= other@);
        }
        true
    }
}

pub open spec fn spec_hex_char(v: u8) -> char {
    if v < 10 {
        ((48 + v) as char)
    } else {
        ((55 + v) as char)
    }
}

pub fn hex_char(v: u8) -> (r: char)
    requires
        v < 16,
    ensures
        r == spec_hex_char(v),
{
    if v < 10 {
        (48 + v) as char
    } else {
        (55 + v) as char
    }
}

pub open spec fn spec_hex_val(c: char) -> Option<u8> {
    if '0' <= c && c <= '9' {
        Some((c as u8 - 48) as u8)
    } else if 'A' <= c && c <= 'F' {
        Some((c as u8 - 55) as u8)
    } else if 'a' <= c && c <= 'f' {
        Some((c as u8 - 87) as u8)
    } else {
        None
    }
}

pub fn hex_val(c: char) -> (r: Option<u8>)
    ensures
        r == spec_hex_val(c),
{
    if '0' <= c && c <= '9' {
        Some(c as u8 - 48)
    } else if 'A' <= c && c <= 'F' {
        Some(c as u8 - 55)
    } else if 'a' <= c && c <= 'f' {
        Some(c as u8 - 87)
    } else {
        None
    }
}

pub open spec fn spec_hex_byte(b: u8) -> Seq<char> {
    seq![spec_hex_char(b / 16), spec_hex_char(b % 16)]
}

/// Two upper-case hex digits per byte, in order.
pub open spec fn spec_hex_of_bytes(bs: Seq<u8>) -> Seq<char>
    decreases bs.len(),
{
    if bs.len() == 0 {
        Seq::<char>::empty()
    } else {
        spec_hex_byte(bs[0]) + spec_hex_of_bytes(bs.drop_first())
    }
}

proof fn lemma_hex_of_bytes_push(bs: Seq<u8>, b: u8)
    ensures
        spec_hex_of_bytes(bs.push(b)) == spec_hex_of_bytes(bs) + spec_hex_byte(b),
    decreases bs.len(),
{
    if bs.len() == 0 {
        assert(bs.push(b).drop_first() =~= Seq::<u8>::empty());
        assert(bs.push(b)[0] == b);
        assert(bs =~= Seq::<u8>::empty());
        assert(spec_hex_of_bytes(Seq::<u8>::empty()) == Seq::<char>::empty());
        assert(spec_hex_of_bytes(bs.push(b)) == spec_hex_byte(b) + spec_hex_of_bytes(
            Seq::<u8>::empty(),
        ));
        assert(spec_hex_of_bytes(bs.push(b)) =~= spec_hex_of_bytes(bs) + spec_hex_byte(b));
    } else {
        assert(bs.push(b)[0] == bs[0]);
        assert(bs.push(b).drop_first() =~= bs.drop_first().push(b));
        lemma_hex_of_bytes_push(bs.drop_first(), b);
        assert(spec_hex_of_bytes(bs.push(b)) == spec_hex_byte(bs[0]) + (spec_hex_of_bytes(
            bs.drop_first(),
        ) + spec_hex_byte(b)));
        assert(spec_hex_of_bytes(bs.push(b)) =~= spec_hex_of_bytes(bs) + spec_hex_byte(b));
    }
}

proof fn lemma_decode_hex_len(s: Seq<char>)
    ensures
        spec_decode_hex(s) matches Some(bs) ==> 2 * bs.len() >= s.len(),
    decreases s.len(),
{
    if s.len() >= 2 {
        lemma_decode_hex_len(s.skip(2));
    }
}

/// The canonical encoding of an address: the type octet then the digits,
/// all as upper-case hex.
pub open spec fn spec_normalize(a: AddrView) -> Seq<char> {
    spec_hex_byte(spec_toa_byte(a.ton, a.npi)) + spec_hex_of_bytes(a.digits)
}

/// Hex decoding of a character string; a trailing lone digit decodes to
/// its own value.
pub open spec fn spec_decode_hex(s: Seq<char>) -> Option<Seq<u8>>
    decreases s.len(),
{
    if s.len() == 0 {
        Some(Seq::<u8>::empty())
    } else if s.len() == 1 {
        match spec_hex_val(s[0]) {
            Some(v) => Some(seq![v]),
            None => None,
        }
    } else {
        match (spec_hex_val(s[0]), spec_hex_val(s[1]), spec_decode_hex(s.skip(2))) {
            (Some(h), Some(l), Some(rest)) => Some(seq![(h * 16 + l) as u8] + rest),
            _ => None,
        }
    }
}

/// What decoding a stored phone-number string yields: the string must be at
/// least three characters of hex, and its first byte a valid type octet.
pub open spec fn spec_un_normalize(s: Seq<char>) -> Option<AddrView> {
    if s.len() < 3 {
        None
    } else {
        match spec_decode_hex(s) {
            None => None,
            Some(bytes) => match spec_decode_toa(bytes[0]) {
                None => None,
                Some((t, p)) => Some(AddrView { ton: t, npi: p, digits: bytes.drop_first() }),
            },
        }
    }
}

/// Renders the canonical stored form of an address.
pub fn normalize_address(a: &PduAddr) -> (r: String)
    ensures
        r@ == spec_normalize(a@),
{
    let toa = toa_byte(a.ton, a.npi);
    let mut out = String::new();
    out.push(hex_char(toa / 16));
    out.push(hex_char(toa % 16));
    proof {
        assert(out@ =~= spec_hex_byte(spec_toa_byte(a.ton, a.npi)));
    }
    let n = a.digits.len();
    let mut i: usize = 0;
    while i < n
        invariant
            n == a.digits@.len(),
            i <= n,
            out@ == spec_hex_byte(spec_toa_byte(a.ton, a.npi)) + spec_hex_of_bytes(
                a.digits@.subrange(0, i as int),
            ),
        decreases n - i,
    {
        let b = a.digits[i];
        out.push(hex_char(b / 16));
        out.push(hex_char(b % 16));
        i = i + 1;
        proof {
            assert(a.digits@.subrange(0, i as int) == a.digits@.subrange(0, i - 1).push(
                a.digits@[i - 1],
            ));
            lemma_hex_of_bytes_push(a.digits@.subrange(0, i - 1), a.digits@[i - 1]);
            assert(out@ =~= spec_hex_byte(spec_toa_byte(a.ton, a.npi)) + spec_hex_of_bytes(
                a.digits@.subrange(0, i as int),
            ));
        }
    }
    proof {
        assert(a.digits@.subrange(0, n as int) == a.digits@);
    }
    out
}

/// Decodes a stored phone-number string back into an address.
pub fn un_normalize_address(s: &str) -> (r: Option<PduAddr>)
    ensures
        r is Some <==> spec_un_normalize(s@) is Some,
        r matches Some(a) ==> spec_un_normalize(s@) == Some(a@),
{
    let len = s.unicode_len();
    if len < 3 {
        return None;
    }
    let mut bytes: Vec<u8> = Vec::new();
    let mut i: usize = 0;
    proof {
        assert(s@.subrange(0, len as int) == s@);
    }
    while i < len
        invariant
            len == s@.len(),
            i <= len,
            i % 2 == 0 || i == len,
            match spec_decode_hex(s@.subrange(i as int, len as int)) {
                Some(rest) => spec_decode_hex(s@) == Some(bytes@ + rest),
                None => spec_decode_hex(s@) is None,
            },
        decreases len - i,
    {
        let ghost tail = s@.subrange(i as int, len as int);
        let h = match hex_val(s.get_char(i)) {
            Some(v) => v,
            None => {
                proof {
                    assert(tail[0] == s@[i as int]);
                    assert(spec_decode_hex(tail) is None);
                }
                return None;
            },
        };
        if i + 1 == len {
            proof {
                assert(tail.len() == 1);
                assert(tail[0] == s@[i as int]);
                assert(spec_decode_hex(tail) == Some(seq![h]));
                assert(bytes@.push(h) =~= bytes@ + seq![h]);
            }
            bytes.push(h);
            i = len;
        } else {
            let l = match hex_val(s.get_char(i + 1)) {
                Some(v) => v,
                None => {
                    proof {
                        assert(tail[1] == s@[i + 1]);
                        assert(spec_decode_hex(tail) is None);
                    }
                    return None;
                },
            };
            proof {
                assert(tail[0] == s@[i as int]);
                assert(tail[1] == s@[i + 1]);
                assert(tail.skip(2) =~= s@.subrange(i + 2, len as int));
                match spec_decode_hex(s@.subrange(i + 2, len as int)) {
                    Some(rest) => {
                        assert(spec_decode_hex(tail) == Some(seq![(h * 16 + l) as u8] + rest));
                        assert(bytes@.push((h * 16 + l) as u8) + rest =~= bytes@ + (seq![
                            (h * 16 + l) as u8,
                        ] + rest));
                    },
                    None => {
                        assert(spec_decode_hex(tail) is None);
                    },
                }
            }
            bytes.push(h * 16 + l);
            i = i + 2;
        }
    }
    proof {
        assert(s@.subrange(len as int, len as int) =~= Seq::<char>::empty());
        assert(spec_decode_hex(s@) == Some(bytes@ + Seq::<u8>::empty()));
        assert(bytes@ + Seq::<u8>::empty() =~= bytes@);
        lemma_decode_hex_len(s@);
        assert(bytes@.len() >= 2);
    }
    let toa = bytes[0];
    match decode_toa(toa) {
        Some((t, p)) => {
            let mut digits: Vec<u8> = Vec::new();
            let blen = bytes.len();
            let mut j: usize = 1;
            while j < blen
                invariant
                    blen == bytes@.len(),
                    1 <= j <= blen,
                    digits@ == bytes@.subrange(1, j as int),
                decreases blen - j,
            {
                digits.push(bytes[j]);
                j = j + 1;
                proof {
                    assert(digits@ =~= bytes@.subrange(1, j as int));
                }
            }
            proof {
                assert(bytes@.subrange(1, blen as int) =~= bytes@.drop_first());
            }
            Some(PduAddr { ton: t, npi: p, digits })
        },
        None => None,
    }
}

/// The text that the GSM seven-bit alphabet decodes the given bytes to.
pub uninterp spec fn gsm_text_of(bs: Seq<u8>) -> Seq<char>;

/// Relies on huawei_modem's `gsm_decode_string`: it never fails, and the
/// decoded text is a function of the input bytes alone.
#[verifier::external_body]
fn gsm_decode(bytes: &Vec<u8>) -> (r: String)
    ensures
        r@ == gsm_text_of(bytes@),
{
    huawei_modem::gsm_encoding::gsm_decode_string(bytes.as_slice())
}

/// The decimal rendering of each digit byte, in order.
pub open spec fn spec_digits_string(ds: Seq<u8>) -> Seq<char>
    decreases ds.len(),
{
    if ds.len() == 0 {
        Seq::<char>::empty()
    } else {
        crate::util::spec_dec_u64(ds[0] as u64) + spec_digits_string(ds.drop_first())
    }
}

/// The display form of an address: a `+` prefix for international numbers,
/// then each digit byte in decimal; an alphanumeric sender address decodes
/// through the GSM alphabet instead.
pub open spec fn spec_addr_string(a: AddrView) -> Seq<char> {
    if a.ton == TypeOfNumber::Gsm {
        gsm_text_of(a.digits)
    } else if a.ton == TypeOfNumber::International {
        seq!['+'] + spec_digits_string(a.digits)
    } else {
        spec_digits_string(a.digits)
    }
}

fn digits_string_from(ds: &Vec<u8>, i: usize) -> (r: String)
    requires
        i <= ds@.len(),
    ensures
        r@ == spec_digits_string(ds@.skip(i as int)),
    decreases ds@.len() - i,
{
    if i == ds.len() {
        proof {
            assert(ds@.skip(i as int) =~= Seq::<u8>::empty());
        }
        String::new()
    } else {
        let head = crate::util::dec_u64(ds[i] as u64);
        let rest = digits_string_from(ds, i + 1);
        proof {
            assert(ds@.skip(i as int)[0] == ds@[i as int]);
            assert(ds@.skip(i as int).drop_first() =~= ds@.skip(i + 1));
        }
        head.concat(rest.as_str())
    }
}

/// Renders the display form of an address.
pub fn addr_to_string(a: &PduAddr) -> (r: String)
    ensures
        r@ == spec_addr_string(a@),
{
    if a.ton == TypeOfNumber::Gsm {
        gsm_decode(&a.digits)
    } else if a.ton == TypeOfNumber::International {
        let mut out = String::new();
        out.push('+');
        let rest = digits_string_from(&a.digits, 0);
        proof {
            assert(a.digits@.skip(0) =~= a.digits@);
        }
        out.concat(rest.as_str())
    } else {
        proof {
            assert(a.digits@.skip(0) =~= a.digits@);
        }
        digits_string_from(&a.digits, 0)
    }
}

/// What parsing a typed-in phone number keeps: only its decimal digits.
pub open spec fn spec_filter_digits(s: Seq<char>) -> Seq<u8>
    decreases s.len(),
{
    if s.len() == 0 {
        Seq::<u8>::empty()
    } else if crate::util::spec_is_digit(s[0]) {
        seq![(s[0] as u8 - 48) as u8] + spec_filter_digits(s.drop_first())
    } else {
        spec_filter_digits(s.drop_first())
    }
}

pub open spec fn spec_has_plus(s: Seq<char>) -> bool {
    exists|i: int| 0 <= i < s.len() && s[i] == '+'
}

/// What parsing a typed-in phone number yields: its digits, international
/// if a `+` occurs anywhere, ISDN numbering plan.
pub open spec fn spec_parse_addr(s: Seq<char>) -> AddrView {
    AddrView {
        ton: if spec_has_plus(s) {
            TypeOfNumber::International
        } else {
            TypeOfNumber::Unknown
        },
        npi: Npi::IsdnTelephone,
        digits: spec_filter_digits(s),
    }
}

/// Parses a human-entered phone number: digits are kept, a `+` anywhere
/// marks the number international, everything else is dropped.
pub fn parse_addr(s: &str) -> (r: PduAddr)
    ensures
        r@ == spec_parse_addr(s@),
{
    let len = s.unicode_len();
    let mut digits: Vec<u8> = Vec::new();
    let mut intl: bool = false;
    let mut i: usize = 0;
    proof {
        assert(s@.skip(0) =~= s@);
    }
    while i < len
        invariant
            len == s@.len(),
            i <= len,
            spec_filter_digits(s@) == digits@ + spec_filter_digits(s@.skip(i as int)),
            intl == exists|j: int| 0 <= j < i && s@[j] == '+',
        decreases len - i,
    {
        let c = s.get_char(i);
        proof {
            assert(s@.skip(i as int)[0] == s@[i as int]);
            assert(s@.skip(i as int).drop_first() =~= s@.skip(i + 1));
        }
        if crate::util::is_digit(c) {
            proof {
                assert(digits@ + spec_filter_digits(s@.skip(i as int)) =~= digits@.push(
                    (c as u8 - 48) as u8,
                ) + spec_filter_digits(s@.skip(i + 1)));
            }
            digits.push(c as u8 - 48);
        } else if c == '+' {
            intl = true;
        }
        i = i + 1;
    }
    proof {
        assert(s@.skip(len as int) =~= Seq::<char>::empty());
        assert(digits@ + Seq::<u8>::empty() =~= digits@);
        if intl {
            assert(spec_has_plus(s@));
        } else {
            assert(!spec_has_plus(s@));
        }
    }
    let ton = if intl {
        TypeOfNumber::International
    } else {
        TypeOfNumber::Unknown
    };
    PduAddr { ton, npi: Npi::IsdnTelephone, digits }
}

proof fn lemma_hex_char_val(v: u8)
    requires
        v < 16,
    ensures
        spec_hex_val(spec_hex_char(v)) == Some(v),
{
}

proof fn lemma_decode_hex_of_bytes(bs: Seq<u8>)
    ensures
        spec_decode_hex(spec_hex_of_bytes(bs)) == Some(bs),
    decreases bs.len(),
{
    if bs.len() == 0 {
        assert(spec_hex_of_bytes(bs).len() == 0);
        assert(bs =~= Seq::<u8>::empty());
    } else {
        let b = bs[0];
        let s = spec_hex_of_bytes(bs);
        assert(s == spec_hex_byte(b) + spec_hex_of_bytes(bs.drop_first()));
        assert(s.len() >= 2);
        assert(s[0] == spec_hex_char(b / 16));
        assert(s[1] == spec_hex_char(b % 16));
        lemma_hex_char_val(b / 16);
        lemma_hex_char_val(b % 16);
        assert(s.skip(2) =~= spec_hex_of_bytes(bs.drop_first()));
        lemma_decode_hex_of_bytes(bs.drop_first());
        assert((b / 16) * 16 + b % 16 == b);
        assert(seq![b] + bs.drop_first() =~= bs);
    }
}

proof fn lemma_decode_toa_round_trip(t: TypeOfNumber, p: Npi)
    ensures
        spec_decode_toa(spec_toa_byte(t, p)) == Some((t, p)),
{
    let tb = spec_ton_bits(t);
    let nb = spec_npi_bits(p);
    let b = spec_toa_byte(t, p);
    assert(b == 128 + tb + nb);
    assert(nb <= 10);
    assert(tb % 16 == 0 && tb <= 112);
    assert(b as int == 128 + tb + nb);
    assert(((b / 16) % 8) * 16 == tb && b % 16 == nb) by (nonlinear_arith)
        requires
            b as int == 128 + tb + nb,
            nb <= 10,
            tb % 16 == 0,
            tb <= 112,
            tb >= 0,
            nb >= 0,
    ;
}

/// Law: decoding the canonical encoding of an address holding at least one
/// digit byte gives the address back exactly.  (An address with no digits
/// encodes to a two-character string, which decoding rejects as too short.)
pub proof fn lemma_addr_round_trip(a: AddrView)
    requires
        a.digits.len() > 0,
    ensures
        spec_un_normalize(spec_normalize(a)) == Some(a),
{
    let s = spec_normalize(a);
    let toa = spec_toa_byte(a.ton, a.npi);
    assert(s == spec_hex_byte(toa) + spec_hex_of_bytes(a.digits));
    assert(spec_hex_of_bytes(seq![toa] + a.digits) =~= spec_hex_byte(toa) + spec_hex_of_bytes(
        (seq![toa] + a.digits).drop_first(),
    ));
    assert((seq![toa] + a.digits).drop_first() =~= a.digits);
    assert(s =~= spec_hex_of_bytes(seq![toa] + a.digits));
    lemma_decode_hex_of_bytes(seq![toa] + a.digits);
    let bytes = (seq![toa] + a.digits);
    assert(spec_hex_of_bytes(a.digits).len() >= 2) by {
        assert(a.digits.len() > 0);
        assert(spec_hex_of_bytes(a.digits) == spec_hex_byte(a.digits[0]) + spec_hex_of_bytes(
            a.digits.drop_first(),
        ));
    }
    assert(s.len() >= 3);
    assert(spec_decode_hex(s) == Some(bytes));
    assert(bytes[0] == toa);
    lemma_decode_toa_round_trip(a.ton, a.npi);
    assert(bytes.drop_first() =~= a.digits);
    assert(spec_un_normalize(s).unwrap() =~= a);
}

} // verus!

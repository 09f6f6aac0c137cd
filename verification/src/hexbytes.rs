//! Hexadecimal framing of PDU bytes as they travel over the serial line.
//!
//! A protocol data unit is written to the modem as an ASCII hex string and
//! read back the same way.  The specification functions here pin down that
//! representation byte for byte; the executable conversions are delegated to
//! the `hex` crate through two trusted wrappers.

use vstd::prelude::*;

verus! {

/// Whether a byte is an ASCII hexadecimal digit (either case).
pub open spec fn is_hex_byte(b: u8) -> bool {
    (48 <= b && b <= 57) || (97 <= b && b <= 102) || (65 <= b && b <= 70)
}

/// Numeric value of an ASCII hexadecimal digit byte (0 for non-digits).
pub open spec fn hex_val(b: u8) -> u8 {
    if 48 <= b && b <= 57 {
        (b - 48) as u8
    } else if 97 <= b && b <= 102 {
        (b - 87) as u8
    } else if 65 <= b && b <= 70 {
        (b - 55) as u8
    } else {
        0
    }
}

/// Lowercase ASCII hexadecimal digit for a nibble value below 16.
pub open spec fn hex_digit(n: u8) -> u8 {
    if n < 10 {
        (48 + n) as u8
    } else {
        (87 + n) as u8
    }
}

/// The lowercase hex rendering of a byte sequence, as ASCII bytes:
/// two digits per input byte, high nibble first.
pub open spec fn hex_lower(b: Seq<u8>) -> Seq<u8>
    decreases b.len(),
{
    if b.len() == 0 {
        Seq::empty()
    } else {
        seq![hex_digit(b[0] / 16), hex_digit(b[0] % 16)] + hex_lower(b.skip(1))
    }
}

/// An even-length sequence made entirely of ASCII hexadecimal digits.
pub open spec fn is_hex_seq(s: Seq<u8>) -> bool {
    s.len() % 2 == 0 && (forall|i: int| 0 <= i < s.len() ==> is_hex_byte(s[i]))
}

/// The bytes denoted by a sequence of ASCII hexadecimal digits
/// (meaningful when `is_hex_seq` holds).
pub open spec fn hex_parse(s: Seq<u8>) -> Seq<u8>
    decreases s.len(),
{
    if s.len() < 2 {
        Seq::empty()
    } else {
        seq![(hex_val(s[0]) * 16 + hex_val(s[1])) as u8] + hex_parse(s.skip(2))
    }
}

/// Relies on `hex::encode`: every input byte becomes exactly two lowercase
/// ASCII hex digits, high nibble first, from the table `0123456789abcdef`.
#[verifier::external_body]
pub fn hex_encode_bytes(data: &[u8]) -> (r: Vec<u8>)
    ensures
        r@ == hex_lower(data@),
{
    hex::encode(data).into_bytes()
}

/// Relies on `hex::decode`: succeeds exactly on even-length input made of
/// ASCII hex digits (either case) and returns the bytes those digits denote.
#[verifier::external_body]
pub fn hex_decode_bytes(data: &[u8]) -> (r: Option<Vec<u8>>)
    ensures
        r is Some <==> is_hex_seq(data@),
        match r {
            Some(v) => v@ == hex_parse(data@),
            None => !is_hex_seq(data@),
        },
{
    hex::decode(data).ok()
}

/// Digits emitted by `hex_lower` really are hex digits, and carry the
/// nibble values they were built from.
pub proof fn lemma_hex_digit_val(n: u8)
    requires
        n < 16,
    ensures
        is_hex_byte(hex_digit(n)),
        hex_val(hex_digit(n)) == n,
{
}

/// Hex encoding then parsing gives the original bytes back, and the
/// encoding is always a well-formed hex digit sequence.
pub proof fn lemma_hex_round_trip(b: Seq<u8>)
    ensures
        is_hex_seq(hex_lower(b)),
        hex_lower(b).len() == 2 * b.len(),
        hex_parse(hex_lower(b)) == b,
    decreases b.len(),
{
    if b.len() == 0 {
        assert(hex_parse(hex_lower(b)) =~= b);
    } else {
        let hi = b[0] / 16;
        let lo = b[0] % 16;
        assert(hi < 16 && lo < 16);
        lemma_hex_digit_val(hi);
        lemma_hex_digit_val(lo);
        vstd::arithmetic::div_mod::lemma_fundamental_div_mod(b[0] as int, 16);
        assert(hi * 16 + lo == b[0]);
        lemma_hex_round_trip(b.skip(1));
        let rest = hex_lower(b.skip(1));
        let s = hex_lower(b);
        assert(s == seq![hex_digit(hi), hex_digit(lo)] + rest);
        assert(s.len() == 2 + rest.len());
        assert forall|i: int| 0 <= i < s.len() implies is_hex_byte(s[i]) by {
            if i >= 2 {
                assert(s[i] == rest[i - 2]);
            }
        }
        assert(s.skip(2) =~= rest);
        assert(hex_parse(s) == seq![(hex_val(s[0]) * 16 + hex_val(s[1])) as u8] + hex_parse(rest));
        assert(hex_parse(s) =~= b);
    }
}

} // verus!

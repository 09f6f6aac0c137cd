//! SMS PDU codec: building an SMS-SUBMIT protocol data unit from a recipient
//! and a message, and parsing one back out of the bytes a modem returns.
//!
//! The layout produced here is: SMSC info (default), first octet, message
//! reference, destination address (length, type, semi-octet digits), protocol
//! identifier, data-coding scheme (8-bit), validity period, user-data length,
//! user data.  The user-data length always equals the true octet count of the
//! payload, and the destination address uses BCD-swapped, nibble-padded
//! semi-octet digit packing.

use vstd::prelude::*;

verus! {

/// Why a (recipient, message) pair could not be encoded.
#[derive(Clone, Copy, PartialEq, Eq, Structural, Debug)]
pub enum EncodingError {
    /// The recipient is not 1 to 20 ASCII decimal digits.
    BadRecipient,
    /// The message exceeds one segment's 140-octet capacity.
    TooLong,
}

/// An ASCII decimal digit byte.
pub open spec fn is_digit_byte(b: u8) -> bool {
    48 <= b && b <= 57
}

/// A recipient address: 1 to 20 ASCII decimal digits.
pub open spec fn valid_recipient(r: Seq<u8>) -> bool {
    1 <= r.len() && r.len() <= 20 && (forall|i: int| 0 <= i < r.len() ==> is_digit_byte(r[i]))
}

/// A message body: any octets, at most 140 of them (one 8-bit segment —
/// the data-coding scheme here is 8-bit data, so the payload is carried
/// verbatim).
pub open spec fn valid_text(t: Seq<u8>) -> bool {
    t.len() <= 140
}

/// Digit values (0..9) of a sequence of ASCII digit bytes.
pub open spec fn digit_vals(r: Seq<u8>) -> Seq<u8> {
    Seq::new(r.len(), |i: int| (r[i] - 48) as u8)
}

/// ASCII digit bytes of a sequence of digit values.
pub open spec fn ascii_digits(d: Seq<u8>) -> Seq<u8> {
    Seq::new(d.len(), |i: int| (d[i] + 48) as u8)
}

/// Semi-octet (BCD-swapped) packing of digit values: each pair of digits
/// becomes one byte with the first digit in the low nibble, and a lone
/// trailing digit is padded with a high nibble of 0xF.
pub open spec fn semi_octets(d: Seq<u8>) -> Seq<u8>
    decreases d.len(),
{
    if d.len() == 0 {
        Seq::empty()
    } else if d.len() == 1 {
        seq![(240 + d[0]) as u8]
    } else {
        seq![(d[1] * 16 + d[0]) as u8] + semi_octets(d.skip(2))
    }
}

/// Unpacking of `n` digit values out of semi-octet bytes.
pub open spec fn semi_decode(s: Seq<u8>, n: nat) -> Seq<u8>
    decreases n,
{
    if n == 0 || s.len() == 0 {
        Seq::empty()
    } else if n == 1 {
        seq![(s[0] % 16) as u8]
    } else {
        seq![(s[0] % 16) as u8, (s[0] / 16) as u8] + semi_decode(s.skip(1), (n - 2) as nat)
    }
}

/// The complete SMS-SUBMIT unit for digit values `d` and payload `t`:
/// default SMSC, first octet 0x11, message reference 0, address length,
/// international type-of-address 0x91, packed address, protocol id 0,
/// 8-bit data-coding scheme 0x04, relative validity 0xAA, user-data
/// length, then the payload itself.
pub open spec fn spec_submit_pdu(d: Seq<u8>, t: Seq<u8>) -> Seq<u8> {
    seq![0u8, 0x11u8, 0u8, d.len() as u8, 0x91u8] + semi_octets(d) + seq![
        0u8,
        0x04u8,
        0xAAu8,
        t.len() as u8,
    ] + t
}

/// Parse of an SMS-SUBMIT unit in the layout of `spec_submit_pdu`:
/// the recipient as ASCII digit bytes and the payload, or `None` when
/// the bytes are not such a unit.
pub open spec fn spec_parse_submit(b: Seq<u8>) -> Option<(Seq<u8>, Seq<u8>)> {
    if b.len() < 5 {
        None
    } else if !(b[0] == 0 && b[1] == 0x11 && b[2] == 0 && b[4] == 0x91) {
        None
    } else {
        let alen = b[3] as int;
        if alen < 1 || alen > 20 {
            None
        } else {
            let ns = (alen + 1) / 2;
            if b.len() < 9 + ns {
                None
            } else {
                let udl = b[8 + ns] as int;
                if b[5 + ns] != 0 || b[6 + ns] != 4 || b[7 + ns] != 0xAA {
                    None
                } else if b.len() != 9 + ns + udl {
                    None
                } else {
                    let digits = semi_decode(b.subrange(5, 5 + ns), alen as nat);
                    if !(forall|i: int| 0 <= i < digits.len() ==> digits[i] < 10) {
                        None
                    } else if alen % 2 == 1 && b[4 + ns] / 16 != 15 {
                        None
                    } else {
                        Some((ascii_digits(digits), b.subrange(9 + ns, b.len() as int)))
                    }
                }
            }
        }
    }
}

/// An encoded SMS-SUBMIT unit together with the values it was built from.
#[derive(Debug)]
pub struct SmsPdu {
    /// The recipient as ASCII decimal digits.
    pub recipient: Vec<u8>,
    /// The payload octets.
    pub text: Vec<u8>,
    /// The encoded unit.
    pub bytes: Vec<u8>,
}

impl SmsPdu {
    /// Well-formedness: the stored bytes really are the encoding of the
    /// stored recipient and payload.
    pub open spec fn wf(&self) -> bool {
        &&& valid_recipient(self.recipient@)
        &&& valid_text(self.text@)
        &&& self.bytes@ == spec_submit_pdu(digit_vals(self.recipient@), self.text@)
    }

    /// Index of the user-data-length field inside the encoded bytes.
    pub open spec fn spec_udl_index(&self) -> int {
        8 + (self.recipient@.len() as int + 1) / 2
    }

    /// The declared user-data length: the byte the unit carries in its
    /// length field, which always equals the true payload octet count.
    pub fn udl(&self) -> (r: u8)
        requires
            self.wf(),
        ensures
            r as int == self.text@.len(),
            r == self.bytes@[self.spec_udl_index()],
    {
        proof {
            lemma_submit_pdu_shape(digit_vals(self.recipient@), self.text@);
        }
        self.text.len() as u8
    }

    /// The data-coding scheme the unit carries: 8-bit data, so the
    /// user-data length below counts octets, not source characters.
    pub fn dcs(&self) -> (r: u8)
        requires
            self.wf(),
        ensures
            r == 0x04u8,
            r == self.bytes@[self.spec_udl_index() - 2],
    {
        proof {
            lemma_submit_pdu_shape(digit_vals(self.recipient@), self.text@);
        }
        0x04
    }

    /// Total octet count of the encoded unit.
    pub fn octet_len(&self) -> (r: usize)
        ensures
            r == self.bytes@.len(),
    {
        self.bytes.len()
    }
}

/// Packed address length: one byte for every two digits, rounded up.
pub proof fn lemma_semi_octets_len(d: Seq<u8>)
    ensures
        semi_octets(d).len() == (d.len() as int + 1) / 2,
    decreases d.len(),
{
    if d.len() >= 2 {
        lemma_semi_octets_len(d.skip(2));
    }
}

/// Semi-octet packing is lossless: unpacking recovers the digits, and a
/// lone trailing digit is padded with a high nibble of 0xF.
pub proof fn lemma_semi_round_trip(d: Seq<u8>)
    requires
        forall|i: int| 0 <= i < d.len() ==> d[i] < 10,
    ensures
        semi_decode(semi_octets(d), d.len() as nat) == d,
        d.len() % 2 == 1 ==> semi_octets(d)[(d.len() as int + 1) / 2 - 1] / 16 == 15,
    decreases d.len(),
{
    lemma_semi_octets_len(d);
    if d.len() == 0 {
        assert(semi_decode(semi_octets(d), 0) =~= d);
    } else if d.len() == 1 {
        let x: u8 = (240 + d[0]) as u8;
        assert(x % 16 == d[0] && x / 16 == 15) by (nonlinear_arith)
            requires
                d[0] < 10,
                x == 240 + d[0],
        ;
        assert(semi_decode(semi_octets(d), 1) =~= d);
    } else {
        let d0 = d[0];
        let d1 = d[1];
        let pair: u8 = (d1 * 16 + d0) as u8;
        assert(pair % 16 == d0 && pair / 16 == d1) by (nonlinear_arith)
            requires
                d0 < 10,
                d1 < 10,
                pair == d1 * 16 + d0,
        ;
        lemma_semi_round_trip(d.skip(2));
        lemma_semi_octets_len(d.skip(2));
        let s = semi_octets(d);
        let s2 = semi_octets(d.skip(2));
        assert(s == seq![pair] + s2);
        assert(s.skip(1) =~= s2);
        assert(semi_decode(s, d.len() as nat) == seq![(s[0] % 16) as u8, (s[0] / 16) as u8]
            + semi_decode(s.skip(1), (d.len() - 2) as nat));
        assert(semi_decode(s, d.len() as nat) =~= d);
        if d.len() % 2 == 1 {
            let ns = (d.len() as int + 1) / 2;
            assert(d.skip(2).len() % 2 == 1);
            assert(s[ns - 1] == s2[ns - 2]);
        }
    }
}

/// Field layout of the encoded unit: where each header byte sits, where
/// the payload sits, and that the declared user-data length equals the
/// true payload octet count.
pub proof fn lemma_submit_pdu_shape(d: Seq<u8>, t: Seq<u8>)
    requires
        1 <= d.len() <= 20,
        t.len() <= 140,
    ensures
        ({
            let b = spec_submit_pdu(d, t);
            let ns = (d.len() as int + 1) / 2;
            &&& b.len() == 9 + ns + t.len()
            &&& b[0] == 0u8
            &&& b[1] == 0x11u8
            &&& b[2] == 0u8
            &&& b[3] == d.len() as u8
            &&& b[4] == 0x91u8
            &&& b.subrange(5, 5 + ns) =~= semi_octets(d)
            &&& b[5 + ns] == 0u8
            &&& b[6 + ns] == 0x04u8
            &&& b[7 + ns] == 0xAAu8
            &&& b[8 + ns] == t.len() as u8
            &&& b.subrange(9 + ns, b.len() as int) =~= t
        }),
{
    lemma_semi_octets_len(d);
}

/// The codec law at the core of the engine: parsing an encoded unit gives
/// back exactly the recipient and payload it was built from.
pub proof fn lemma_submit_round_trip(r: Seq<u8>, t: Seq<u8>)
    requires
        valid_recipient(r),
        valid_text(t),
    ensures
        spec_parse_submit(spec_submit_pdu(digit_vals(r), t)) == Some((r, t)),
{
    let d = digit_vals(r);
    let b = spec_submit_pdu(d, t);
    let ns = (d.len() as int + 1) / 2;
    lemma_submit_pdu_shape(d, t);
    lemma_semi_round_trip(d);
    assert(forall|i: int| 0 <= i < d.len() ==> d[i] < 10);
    let digits = semi_decode(b.subrange(5, 5 + ns), d.len() as nat);
    assert(digits == d);
    assert(ascii_digits(digits) =~= r);
    assert(b.subrange(9 + ns, b.len() as int) =~= t);
    if d.len() % 2 == 1 {
        assert(b[4 + ns] == semi_octets(d)[ns - 1]);
    }
    assert(spec_parse_submit(b) == Some((r, t)));
}

/// Semi-octet packing as executable code.
fn pack_semi_octets(digits: &[u8]) -> (r: Vec<u8>)
    requires
        forall|i: int| 0 <= i < digits@.len() ==> digits@[i] < 10,
    ensures
        r@ == semi_octets(digits@),
{
    let d = Ghost(digits@);
    let mut r: Vec<u8> = Vec::new();
    let mut i: usize = 0;
    proof {
        assert(d@.skip(0) =~= d@);
        assert(r@ + semi_octets(d@.skip(0)) =~= semi_octets(d@));
    }
    while i + 1 < digits.len()
        invariant
            forall|k: int| 0 <= k < d@.len() ==> d@[k] < 10,
            d@ == digits@,
            i % 2 == 0,
            i <= d@.len(),
            semi_octets(d@) == r@ + semi_octets(d@.skip(i as int)),
        decreases d@.len() - i,
    {
        let pair: u8 = digits[i + 1] * 16 + digits[i];
        proof {
            let rest = d@.skip(i as int);
            assert(rest[0] == d@[i as int] && rest[1] == d@[i as int + 1]);
            assert(semi_octets(rest) == seq![(rest[1] * 16 + rest[0]) as u8] + semi_octets(
                rest.skip(2),
            ));
            assert(rest.skip(2) =~= d@.skip(i as int + 2));
        }
        r.push(pair);
        i = i + 2;
    }
    if i < digits.len() {
        let last: u8 = 240 + digits[i];
        proof {
            let rest = d@.skip(i as int);
            assert(rest.len() == 1 && rest[0] == d@[i as int]);
            assert(semi_octets(rest) =~= seq![(240 + rest[0]) as u8]);
        }
        r.push(last);
        proof {
            assert(r@ =~= semi_octets(d@));
        }
    } else {
        proof {
            assert(d@.skip(i as int) =~= Seq::<u8>::empty());
            assert(semi_octets(d@.skip(i as int)) =~= Seq::<u8>::empty());
            assert(r@ =~= semi_octets(d@));
        }
    }
    r
}

/// Copy of a byte range.
#[verifier::loop_isolation(false)]
pub(crate) fn copy_range(b: &[u8], start: usize, end: usize) -> (r: Vec<u8>)
    requires
        start <= end <= b@.len(),
    ensures
        r@ == b@.subrange(start as int, end as int),
{
    let mut r: Vec<u8> = Vec::new();
    let mut j: usize = start;
    proof {
        assert(r@ =~= b@.subrange(start as int, start as int));
    }
    while j < end
        invariant
            start <= j <= end,
            r@ == b@.subrange(start as int, j as int),
        decreases end - j,
    {
        r.push(b[j]);
        proof {
            assert(r@ =~= b@.subrange(start as int, j as int + 1));
        }
        j = j + 1;
    }
    r
}

/// Semi-octet unpacking as executable code.
#[verifier::loop_isolation(false)]
fn unpack_semi_octets(s: &[u8], ndigits: usize) -> (r: Vec<u8>)
    requires
        s@.len() == (ndigits + 1) / 2,
        ndigits <= 1000,
    ensures
        r@ == semi_decode(s@, ndigits as nat),
{
    let mut r: Vec<u8> = Vec::new();
    let mut j: usize = 0;
    proof {
        assert(s@.skip(0) =~= s@);
        assert(r@ + semi_decode(s@.skip(0), ndigits as nat) =~= semi_decode(s@, ndigits as nat));
    }
    while 2 * j + 2 <= ndigits
        invariant
            2 * j <= ndigits + 1,
            j <= s@.len(),
            semi_decode(s@, ndigits as nat) == r@ + semi_decode(
                s@.skip(j as int),
                (ndigits - 2 * j) as nat,
            ),
        decreases ndigits - 2 * j,
    {
        proof {
            let rest = s@.skip(j as int);
            assert(rest.len() >= 1);
            assert(rest[0] == s@[j as int]);
            assert(semi_decode(rest, (ndigits - 2 * j) as nat) == seq![
                (rest[0] % 16) as u8,
                (rest[0] / 16) as u8,
            ] + semi_decode(rest.skip(1), (ndigits - 2 * j - 2) as nat));
            assert(rest.skip(1) =~= s@.skip(j as int + 1));
        }
        r.push(s[j] % 16);
        r.push(s[j] / 16);
        j = j + 1;
    }
    if 2 * j < ndigits {
        proof {
            let rest = s@.skip(j as int);
            assert(rest.len() >= 1);
            assert(rest[0] == s@[j as int]);
            assert(semi_decode(rest, (ndigits - 2 * j) as nat) =~= seq![(rest[0] % 16) as u8]);
        }
        r.push(s[j] % 16);
        proof {
            assert(r@ =~= semi_decode(s@, ndigits as nat));
        }
    } else {
        proof {
            assert(semi_decode(s@.skip(j as int), (ndigits - 2 * j) as nat) =~= Seq::<u8>::empty());
            assert(r@ =~= semi_decode(s@, ndigits as nat));
        }
    }
    r
}

/// Parse an SMS-SUBMIT unit out of raw bytes: the recipient as ASCII digit
/// bytes and the payload, exactly as `spec_parse_submit` describes.
#[verifier::loop_isolation(false)]
pub fn parse_submit(b: &[u8]) -> (r: Option<(Vec<u8>, Vec<u8>)>)
    ensures
        match r {
            Some(p) => spec_parse_submit(b@) == Some((p.0@, p.1@)),
            None => spec_parse_submit(b@) is None,
        },
{
    if b.len() < 5 {
        return None;
    }
    if !(b[0] == 0 && b[1] == 0x11 && b[2] == 0 && b[4] == 0x91) {
        return None;
    }
    let alen: usize = b[3] as usize;
    if alen < 1 || alen > 20 {
        return None;
    }
    let ns: usize = (alen + 1) / 2;
    if b.len() < 9 + ns {
        return None;
    }
    if b[5 + ns] != 0 || b[6 + ns] != 4 || b[7 + ns] != 0xAA {
        return None;
    }
    let udl: usize = b[8 + ns] as usize;
    if b.len() != 9 + ns + udl {
        return None;
    }
    let sem = copy_range(b, 5, 5 + ns);
    let digits = unpack_semi_octets(sem.as_slice(), alen);
    let ghost ds = semi_decode(b@.subrange(5, 5 + ns as int), alen as nat);
    proof {
        assert(digits@ == ds);
    }
    let mut i: usize = 0;
    while i < digits.len()
        invariant
            i <= digits@.len(),
            forall|k: int| 0 <= k < i ==> digits@[k] < 10,
        decreases digits@.len() - i,
    {
        if digits[i] >= 10 {
            proof {
                assert(!(ds[i as int] < 10));
            }
            return None;
        }
        i = i + 1;
    }
    if alen % 2 == 1 && b[4 + ns] / 16 != 15 {
        return None;
    }
    let mut rec: Vec<u8> = Vec::new();
    let mut k: usize = 0;
    while k < digits.len()
        invariant
            k <= digits@.len(),
            forall|q: int| 0 <= q < digits@.len() ==> digits@[q] < 10,
            rec@ == ascii_digits(digits@).take(k as int),
        decreases digits@.len() - k,
    {
        rec.push(digits[k] + 48);
        proof {
            assert(rec@ =~= ascii_digits(digits@).take(k as int + 1));
        }
        k = k + 1;
    }
    proof {
        assert(rec@ =~= ascii_digits(ds));
    }
    let text = copy_range(b, 9 + ns, b.len());
    Some((rec, text))
}

/// Encode a recipient and message into an SMS-SUBMIT unit.
///
/// Succeeds exactly when the recipient is 1 to 20 ASCII decimal digits and
/// the message fits one 140-octet segment; the payload octets themselves
/// are unrestricted (8-bit data).  The errors say which condition failed,
/// checked in that order.
#[verifier::loop_isolation(false)]
pub fn encode(recipient: &[u8], text: &[u8]) -> (r: Result<SmsPdu, EncodingError>)
    ensures
        match r {
            Ok(p) => {
                &&& valid_recipient(recipient@)
                &&& valid_text(text@)
                &&& p.wf()
                &&& p.recipient@ == recipient@
                &&& p.text@ == text@
                &&& p.bytes@ == spec_submit_pdu(digit_vals(recipient@), text@)
            },
            Err(EncodingError::BadRecipient) => !valid_recipient(recipient@),
            Err(EncodingError::TooLong) => valid_recipient(recipient@) && text@.len() > 140,
        },
{
    if recipient.len() < 1 || recipient.len() > 20 {
        return Err(EncodingError::BadRecipient);
    }
    let mut i: usize = 0;
    while i < recipient.len()
        invariant
            i <= recipient@.len(),
            forall|k: int| 0 <= k < i ==> is_digit_byte(recipient@[k]),
        decreases recipient@.len() - i,
    {
        let c = recipient[i];
        if c < 48 || c > 57 {
            return Err(EncodingError::BadRecipient);
        }
        i = i + 1;
    }
    if text.len() > 140 {
        return Err(EncodingError::TooLong);
    }
    // Digit values of the recipient.
    let mut dvals: Vec<u8> = Vec::new();
    let mut k: usize = 0;
    while k < recipient.len()
        invariant
            k <= recipient@.len(),
            valid_recipient(recipient@),
            dvals@ == digit_vals(recipient@).take(k as int),
        decreases recipient@.len() - k,
    {
        dvals.push(recipient[k] - 48);
        proof {
            assert(dvals@ =~= digit_vals(recipient@).take(k as int + 1));
        }
        k = k + 1;
    }
    proof {
        assert(dvals@ =~= digit_vals(recipient@));
    }
    let mut sem = pack_semi_octets(dvals.as_slice());
    let mut bytes: Vec<u8> = Vec::new();
    bytes.push(0);
    bytes.push(0x11);
    bytes.push(0);
    bytes.push(recipient.len() as u8);
    bytes.push(0x91);
    bytes.append(&mut sem);
    bytes.push(0);
    bytes.push(0x04);
    bytes.push(0xAA);
    bytes.push(text.len() as u8);
    let mut m: usize = 0;
    let tail = Ghost(bytes@);
    while m < text.len()
        invariant
            m <= text@.len(),
            bytes@ == tail@ + text@.take(m as int),
        decreases text@.len() - m,
    {
        bytes.push(text[m]);
        proof {
            assert(bytes@ =~= tail@ + text@.take(m as int + 1));
        }
        m = m + 1;
    }
    let mut rec: Vec<u8> = Vec::new();
    let mut n: usize = 0;
    while n < recipient.len()
        invariant
            n <= recipient@.len(),
            rec@ == recipient@.take(n as int),
        decreases recipient@.len() - n,
    {
        rec.push(recipient[n]);
        proof {
            assert(rec@ =~= recipient@.take(n as int + 1));
        }
        n = n + 1;
    }
    let mut txt: Vec<u8> = Vec::new();
    let mut q: usize = 0;
    while q < text.len()
        invariant
            q <= text@.len(),
            txt@ == text@.take(q as int),
        decreases text@.len() - q,
    {
        txt.push(text[q]);
        proof {
            assert(txt@ =~= text@.take(q as int + 1));
        }
        q = q + 1;
    }
    proof {
        assert(rec@ =~= recipient@);
        assert(txt@ =~= text@);
        assert(text@.take(text@.len() as int) =~= text@);
        assert(bytes@ =~= spec_submit_pdu(digit_vals(recipient@), text@));
    }
    Ok(SmsPdu { recipient: rec, text: txt, bytes })
}

} // verus!

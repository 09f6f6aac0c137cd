//! Decoding of a modem's "list messages" response.
//!
//! A listing is raw response text: zero or more records, each introduced by a
//! `+CMGL:`-style header line that carries the storage slot index, followed by
//! a line of hex-encoded PDU bytes.  A response with no header yields an empty
//! list; a malformed record is skipped and counted, and never aborts the rest.

use vstd::prelude::*;
use crate::hexbytes::{hex_decode_bytes, hex_parse, is_hex_byte, is_hex_seq};
use crate::pdu::{copy_range, is_digit_byte, parse_submit, spec_parse_submit};

verus! {

/// A line with its trailing carriage return removed.
pub open spec fn strip_cr(l: Seq<u8>) -> Seq<u8> {
    if l.len() > 0 && l[l.len() - 1] == 13 {
        l.drop_last()
    } else {
        l
    }
}

/// Accumulator form of line splitting: `cur` is the line being read.
/// Lines end at each line feed; a final unterminated line still counts.
pub open spec fn spec_lines_acc(s: Seq<u8>, cur: Seq<u8>) -> Seq<Seq<u8>>
    decreases s.len(),
{
    if s.len() == 0 {
        if cur.len() == 0 {
            Seq::empty()
        } else {
            seq![strip_cr(cur)]
        }
    } else if s[0] == 10 {
        seq![strip_cr(cur)] + spec_lines_acc(s.skip(1), Seq::empty())
    } else {
        spec_lines_acc(s.skip(1), cur.push(s[0]))
    }
}

/// The lines of a response: split at line feeds, carriage returns stripped.
pub open spec fn spec_lines(s: Seq<u8>) -> Seq<Seq<u8>> {
    spec_lines_acc(s, Seq::empty())
}

/// The bytes of a `+CMGL:` header prefix.
pub open spec fn header_magic() -> Seq<u8> {
    seq![43u8, 67u8, 77u8, 71u8, 76u8, 58u8]
}

/// Whether a line introduces a message record.
pub open spec fn is_header_line(l: Seq<u8>) -> bool {
    l.len() >= 6 && l.subrange(0, 6) == header_magic()
}

/// Length of the run of spaces starting at `i`.
pub open spec fn space_run_len(l: Seq<u8>, i: int) -> int
    decreases l.len() - i,
{
    if 0 <= i && i < l.len() && l[i] == 32 {
        1 + space_run_len(l, i + 1)
    } else {
        0
    }
}

/// Length of the run of ASCII decimal digits starting at `i`.
pub open spec fn digit_run_len(l: Seq<u8>, i: int) -> int
    decreases l.len() - i,
{
    if 0 <= i && i < l.len() && is_digit_byte(l[i]) {
        1 + digit_run_len(l, i + 1)
    } else {
        0
    }
}

/// Value of the `n` decimal digits of `l` starting at `i`.
pub open spec fn dec_value(l: Seq<u8>, i: int, n: int) -> int
    decreases n,
{
    if n <= 0 {
        0
    } else {
        dec_value(l, i, n - 1) * 10 + (l[i + n - 1] - 48)
    }
}

pub open spec fn spec_pow10(n: int) -> int
    decreases n,
{
    if n <= 0 {
        1
    } else {
        10 * spec_pow10(n - 1)
    }
}

/// The number a tag line declares: the run of decimal digits after the
/// six-byte tag and any spaces — one to nine digits, the widest run that
/// always fits the 32-bit counter carrying it.  A `+CMGL:` header carries
/// its slot index in this shape, and a `+CMGS:` send reply its message
/// reference.
pub open spec fn spec_parse_header_index(l: Seq<u8>) -> Option<u32> {
    let s = 6 + space_run_len(l, 6);
    let n = digit_run_len(l, s);
    if 1 <= n && n <= 9 {
        Some(dec_value(l, s, n) as u32)
    } else {
        None
    }
}

/// What one record's PDU line denotes: hex digits framing a SUBMIT unit.
pub open spec fn spec_parse_record(s: Seq<u8>) -> Option<(Seq<u8>, Seq<u8>)> {
    if is_hex_seq(s) {
        spec_parse_submit(hex_parse(s))
    } else {
        None
    }
}

/// The messages and the malformed-record count a sequence of lines yields:
/// a header line and its following line form a record; a header with no
/// following line, an unparsable index, or an unparsable PDU line counts as
/// one malformed record and is skipped; other lines are ignored.
pub open spec fn spec_decode_lines(ls: Seq<Seq<u8>>) -> (Seq<(Seq<u8>, Seq<u8>, Seq<u8>, u32)>, int)
    decreases ls.len(),
{
    if ls.len() == 0 {
        (Seq::empty(), 0)
    } else if is_header_line(ls[0]) {
        if ls.len() == 1 {
            (Seq::empty(), 1)
        } else {
            let rest = spec_decode_lines(ls.skip(2));
            match (spec_parse_header_index(ls[0]), spec_parse_record(ls[1])) {
                (Some(ix), Some(p)) => (seq![(p.0, p.1, ls[1], ix)] + rest.0, rest.1),
                _ => (rest.0, rest.1 + 1),
            }
        }
    } else {
        spec_decode_lines(ls.skip(1))
    }
}

/// An inbound message: sender digits, payload, the raw PDU line it came
/// from, and the storage slot it was read from.
pub struct SmsMessage {
    /// Sender address as ASCII decimal digits.
    pub sender: Vec<u8>,
    /// Payload octets.
    pub text: Vec<u8>,
    /// The raw hex PDU line of the record.
    pub pdu: Vec<u8>,
    /// Storage slot index from the header line.
    pub index: u32,
}

impl View for SmsMessage {
    type V = (Seq<u8>, Seq<u8>, Seq<u8>, u32);

    open spec fn view(&self) -> Self::V {
        (self.sender@, self.text@, self.pdu@, self.index)
    }
}

/// Everything one listing response decodes to.
pub struct DecodeOutcome {
    /// The well-formed records, in listing order.
    pub messages: Vec<SmsMessage>,
    /// How many records were skipped as malformed.
    pub malformed: usize,
}

/// Whether a line introduces a message record.
pub fn is_header(l: &[u8]) -> (r: bool)
    ensures
        r == is_header_line(l@),
{
    if l.len() < 6 {
        return false;
    }
    let r = l[0] == 43 && l[1] == 67 && l[2] == 77 && l[3] == 71 && l[4] == 76 && l[5] == 58;
    proof {
        assert(forall|k: int| 0 <= k < 6 ==> l@.subrange(0, 6)[k] == l@[k]);
        if r {
            assert(l@.subrange(0, 6) =~= header_magic());
        }
    }
    r
}

/// A position inside a digit run holds a digit.
proof fn lemma_digit_run_digits(l: Seq<u8>, i: int, k: int)
    requires
        i <= k < i + digit_run_len(l, i),
    ensures
        0 <= k < l.len() && is_digit_byte(l[k]),
    decreases l.len() - i,
{
    assert(digit_run_len(l, i) > 0);
    assert(0 <= i && i < l.len() && is_digit_byte(l[i]));
    if k > i {
        assert(digit_run_len(l, i) == 1 + digit_run_len(l, i + 1));
        lemma_digit_run_digits(l, i + 1, k);
    }
}

/// A run of digits denotes a value below ten to the run's length.
proof fn lemma_dec_value_bound(l: Seq<u8>, i: int, n: int)
    requires
        0 <= n <= digit_run_len(l, i),
    ensures
        0 <= dec_value(l, i, n) < spec_pow10(n),
    decreases n,
{
    if n > 0 {
        lemma_dec_value_bound(l, i, n - 1);
        lemma_digit_run_digits(l, i, i + n - 1);
        assert(dec_value(l, i, n) == dec_value(l, i, n - 1) * 10 + (l[i + n - 1] - 48));
        assert(spec_pow10(n) == 10 * spec_pow10(n - 1));
    }
}

/// The number of a tag line, exactly as `spec_parse_header_index`.
#[verifier::loop_isolation(false)]
pub fn parse_header_index(l: &[u8]) -> (r: Option<u32>)
    ensures
        r == spec_parse_header_index(l@),
{
    let mut s: usize = 6;
    if l.len() < 6 {
        proof {
            assert(space_run_len(l@, 6) == 0);
            assert(digit_run_len(l@, 6) == 0);
        }
        return None;
    }
    while s < l.len() && l[s] == 32
        invariant
            6 <= s <= l@.len(),
            space_run_len(l@, 6) == (s - 6) + space_run_len(l@, s as int),
        decreases l@.len() - s,
    {
        s = s + 1;
    }
    proof {
        assert(space_run_len(l@, s as int) == 0);
    }
    let mut n: usize = 0;
    while s + n < l.len() && l[s + n] >= 48 && l[s + n] <= 57
        invariant
            s + n <= l@.len(),
            digit_run_len(l@, s as int) == n + digit_run_len(l@, (s + n) as int),
        decreases l@.len() - s - n,
    {
        n = n + 1;
    }
    proof {
        assert(digit_run_len(l@, (s + n) as int) == 0);
    }
    if n < 1 || n > 9 {
        return None;
    }
    proof {
        assert(spec_pow10(0) == 1);
        assert(spec_pow10(1) == 10);
        assert(spec_pow10(2) == 100);
        assert(spec_pow10(3) == 1000);
        assert(spec_pow10(4) == 10000);
        assert(spec_pow10(5) == 100000);
        assert(spec_pow10(6) == 1000000);
        assert(spec_pow10(7) == 10000000);
        assert(spec_pow10(8) == 100000000);
        assert(spec_pow10(9) == 1000000000);
    }
    let mut acc: u32 = 0;
    let mut k: usize = 0;
    while k < n
        invariant
            k <= n,
            acc as int == dec_value(l@, s as int, k as int),
            (acc as int) < spec_pow10(k as int),
        decreases n - k,
    {
        proof {
            lemma_digit_run_digits(l@, s as int, s + k);
            assert(spec_pow10(k as int) <= 100000000) by {
                if k == 0 {
                } else if k == 1 {
                } else if k == 2 {
                } else if k == 3 {
                } else if k == 4 {
                } else if k == 5 {
                } else if k == 6 {
                } else if k == 7 {
                } else {
                    assert(k == 8);
                }
            }
            assert(dec_value(l@, s as int, k + 1) == dec_value(l@, s as int, k as int) * 10 + (
            l@[s + k] - 48));
            assert(spec_pow10(k + 1) == 10 * spec_pow10(k as int));
        }
        let d = l[s + k] - 48;
        acc = acc * 10 + d as u32;
        k = k + 1;
    }
    proof {
        lemma_dec_value_bound(l@, s as int, n as int);
    }
    Some(acc)
}

/// One record's PDU line decoded to sender digits and payload, exactly as
/// `spec_parse_record`: the trusted hex decode, then the verified parser.
pub fn decode_record(line: &[u8]) -> (r: Option<(Vec<u8>, Vec<u8>)>)
    ensures
        match r {
            Some(p) => spec_parse_record(line@) == Some((p.0@, p.1@)),
            None => spec_parse_record(line@) is None,
        },
{
    match hex_decode_bytes(line) {
        None => None,
        Some(bytes) => parse_submit(bytes.as_slice()),
    }
}

/// Split a response into lines, exactly as `spec_lines`.
#[verifier::loop_isolation(false)]
pub fn split_lines(s: &[u8]) -> (r: Vec<Vec<u8>>)
    ensures
        r@.map_values(|l: Vec<u8>| l@) == spec_lines(s@),
{
    let mut lines: Vec<Vec<u8>> = Vec::new();
    let mut cur: Vec<u8> = Vec::new();
    let mut i: usize = 0;
    proof {
        assert(s@.skip(0) =~= s@);
        assert(lines@.map_values(|l: Vec<u8>| l@) + spec_lines_acc(s@.skip(0), cur@) =~= spec_lines(
            s@,
        ));
    }
    while i < s.len()
        invariant
            i <= s@.len(),
            spec_lines(s@) == lines@.map_values(|l: Vec<u8>| l@) + spec_lines_acc(
                s@.skip(i as int),
                cur@,
            ),
        decreases s@.len() - i,
    {
        let ghost rest = s@.skip(i as int);
        proof {
            assert(rest[0] == s@[i as int]);
            assert(rest.skip(1) =~= s@.skip(i as int + 1));
        }
        let c = s[i];
        if c == 10 {
            let ghost cur_old = cur@;
            let ghost lv = lines@.map_values(|l: Vec<u8>| l@);
            let mut line = copy_range(cur.as_slice(), 0, cur.len());
            proof {
                assert(line@ =~= cur@);
            }
            if line.len() > 0 && line[line.len() - 1] == 13 {
                line.pop();
            }
            proof {
                assert(line@ == strip_cr(cur_old));
            }
            lines.push(line);
            cur.clear();
            proof {
                assert(lines@.map_values(|l: Vec<u8>| l@) =~= lv.push(strip_cr(cur_old)));
                assert(spec_lines_acc(rest, cur_old) == seq![strip_cr(cur_old)] + spec_lines_acc(
                    rest.skip(1),
                    Seq::empty(),
                ));
                assert(lv.push(strip_cr(cur_old)) + spec_lines_acc(rest.skip(1), Seq::empty())
                    =~= lv + spec_lines_acc(rest, cur_old));
            }
        } else {
            cur.push(c);
        }
        i = i + 1;
    }
    proof {
        assert(s@.skip(i as int) =~= Seq::<u8>::empty());
    }
    if cur.len() > 0 {
        let ghost cur_old = cur@;
        let ghost lv = lines@.map_values(|l: Vec<u8>| l@);
        let mut line = copy_range(cur.as_slice(), 0, cur.len());
        proof {
            assert(line@ =~= cur@);
        }
        if line[line.len() - 1] == 13 {
            line.pop();
        }
        proof {
            assert(line@ == strip_cr(cur_old));
        }
        lines.push(line);
        proof {
            assert(lines@.map_values(|l: Vec<u8>| l@) =~= lv.push(strip_cr(cur_old)));
            assert(lv.push(strip_cr(cur_old)) =~= lv + seq![strip_cr(cur_old)]);
        }
    }
    lines
}

/// Decode a listing response: every well-formed record becomes a message,
/// in listing order, and every malformed record is counted and skipped
/// without aborting the rest, exactly as `spec_decode_lines` over
/// `spec_lines` describes.
#[verifier::loop_isolation(false)]
pub fn decode(listing: &[u8]) -> (r: DecodeOutcome)
    ensures
        r.messages@.map_values(|m: SmsMessage| m@) == spec_decode_lines(spec_lines(listing@)).0,
        r.malformed as int == spec_decode_lines(spec_lines(listing@)).1,
{
    let lines = split_lines(listing);
    let ghost ls = spec_lines(listing@);
    let mut messages: Vec<SmsMessage> = Vec::new();
    let mut malformed: usize = 0;
    let mut i: usize = 0;
    proof {
        assert(ls.skip(0) =~= ls);
        assert(messages@.map_values(|m: SmsMessage| m@) + spec_decode_lines(ls).0
            =~= spec_decode_lines(ls).0);
    }
    while i < lines.len()
        invariant
            i <= lines@.len(),
            lines@.map_values(|l: Vec<u8>| l@) == ls,
            malformed <= i,
            spec_decode_lines(ls).0 == messages@.map_values(|m: SmsMessage| m@)
                + spec_decode_lines(ls.skip(i as int)).0,
            spec_decode_lines(ls).1 == malformed + spec_decode_lines(ls.skip(i as int)).1,
        decreases lines@.len() - i,
    {
        let ghost rest = ls.skip(i as int);
        proof {
            assert(lines@.map_values(|l: Vec<u8>| l@)[i as int] == lines@[i as int]@);
            assert(rest[0] == ls[i as int]);
        }
        if is_header(lines[i].as_slice()) {
            if i + 1 >= lines.len() {
                proof {
                    assert(rest.len() == 1);
                    assert(ls.skip(i as int + 1) =~= Seq::<Seq<u8>>::empty());
                }
                malformed = malformed + 1;
                i = i + 1;
            } else {
                proof {
                    assert(lines@.map_values(|l: Vec<u8>| l@)[i as int + 1] == lines@[i as int
                        + 1]@);
                    assert(rest[1] == ls[i as int + 1]);
                    assert(rest.skip(2) =~= ls.skip(i as int + 2));
                }
                let ix_opt = parse_header_index(lines[i].as_slice());
                let rec_opt = decode_record(lines[i + 1].as_slice());
                match (ix_opt, rec_opt) {
                    (Some(ix), Some(p)) => {
                        let pdu = copy_range(lines[i + 1].as_slice(), 0, lines[i + 1].len());
                        let ghost mv = messages@.map_values(|m: SmsMessage| m@);
                        let ghost entry = (p.0@, p.1@, pdu@, ix);
                        proof {
                            assert(pdu@ == rest[1]);
                            assert(spec_parse_header_index(rest[0]) == Some(ix));
                            assert(spec_parse_record(rest[1]) == Some((p.0@, p.1@)));
                            assert(spec_decode_lines(rest).0 == seq![entry] + spec_decode_lines(
                                rest.skip(2),
                            ).0);
                            assert(spec_decode_lines(rest).1 == spec_decode_lines(rest.skip(2)).1);
                        }
                        let msg = SmsMessage { sender: p.0, text: p.1, pdu, index: ix };
                        messages.push(msg);
                        proof {
                            assert(messages@.map_values(|m: SmsMessage| m@) =~= mv.push(entry));
                            assert(mv.push(entry) + spec_decode_lines(rest.skip(2)).0 =~= mv + (
                            seq![entry] + spec_decode_lines(rest.skip(2)).0));
                        }
                    },
                    _ => {
                        malformed = malformed + 1;
                    },
                }
                i = i + 2;
            }
        } else {
            proof {
                assert(rest.skip(1) =~= ls.skip(i as int + 1));
            }
            i = i + 1;
        }
    }
    proof {
        assert(ls.skip(i as int) =~= Seq::<Seq<u8>>::empty());
        assert(messages@.map_values(|m: SmsMessage| m@) + spec_decode_lines(ls.skip(i as int)).0
            =~= messages@.map_values(|m: SmsMessage| m@));
    }
    DecodeOutcome { messages, malformed }
}

/// A listing with no record header decodes to an empty message list and
/// no malformed records — it is not an error.
pub proof fn lemma_no_header_decodes_empty(ls: Seq<Seq<u8>>)
    requires
        forall|i: int| 0 <= i < ls.len() ==> !is_header_line(ls[i]),
    ensures
        spec_decode_lines(ls).0 == Seq::<(Seq<u8>, Seq<u8>, Seq<u8>, u32)>::empty(),
        spec_decode_lines(ls).1 == 0,
    decreases ls.len(),
{
    if ls.len() > 0 {
        assert(!is_header_line(ls[0]));
        assert(forall|i: int| 0 <= i < ls.skip(1).len() ==> ls.skip(1)[i] == ls[i + 1]);
        lemma_no_header_decodes_empty(ls.skip(1));
    } else {
        assert(spec_decode_lines(ls).0 =~= Seq::<(Seq<u8>, Seq<u8>, Seq<u8>, u32)>::empty());
    }
}

/// A chunk with no line feed only extends the line being read.
proof fn lemma_lines_no_newline_prefix(s: Seq<u8>, rest: Seq<u8>, cur: Seq<u8>)
    requires
        forall|i: int| 0 <= i < s.len() ==> s[i] != 10,
    ensures
        spec_lines_acc(s + rest, cur) == spec_lines_acc(rest, cur + s),
    decreases s.len(),
{
    if s.len() == 0 {
        assert(s + rest =~= rest);
        assert(cur + s =~= cur);
    } else {
        assert((s + rest)[0] == s[0]);
        assert((s + rest).skip(1) =~= s.skip(1) + rest);
        assert(cur.push(s[0]) + s.skip(1) =~= cur + s);
        assert(forall|i: int| 0 <= i < s.skip(1).len() ==> s.skip(1)[i] == s[i + 1]);
        lemma_lines_no_newline_prefix(s.skip(1), rest, cur.push(s[0]));
    }
}

/// The round-trip law of the codec, at the listing level: a synthetic
/// listing made of one header line and the hex rendering of an encoded
/// unit decodes to exactly one message carrying the original recipient
/// and payload, with no malformed records.
pub proof fn lemma_listing_round_trip(hdr: Seq<u8>, r: Seq<u8>, t: Seq<u8>, ix: u32)
    requires
        crate::pdu::valid_recipient(r),
        crate::pdu::valid_text(t),
        is_header_line(hdr),
        spec_parse_header_index(hdr) == Some(ix),
        forall|i: int| 0 <= i < hdr.len() ==> hdr[i] != 10 && hdr[i] != 13,
    ensures
        ({
            let pdu = crate::pdu::spec_submit_pdu(crate::pdu::digit_vals(r), t);
            let hx = crate::hexbytes::hex_lower(pdu);
            let listing = hdr + seq![13u8, 10u8] + hx + seq![13u8, 10u8];
            &&& spec_lines(listing) == seq![hdr, hx]
            &&& spec_decode_lines(spec_lines(listing)).0 == seq![(r, t, hx, ix)]
            &&& spec_decode_lines(spec_lines(listing)).1 == 0
        }),
{
    let pdu = crate::pdu::spec_submit_pdu(crate::pdu::digit_vals(r), t);
    let hx = crate::hexbytes::hex_lower(pdu);
    let listing = hdr + seq![13u8, 10u8] + hx + seq![13u8, 10u8];
    crate::hexbytes::lemma_hex_round_trip(pdu);
    crate::pdu::lemma_submit_round_trip(r, t);
    // Split off the header line.
    let s1 = hdr + seq![13u8];
    let rest1 = seq![10u8] + hx + seq![13u8, 10u8];
    assert(listing =~= s1 + rest1);
    assert(forall|i: int| 0 <= i < s1.len() ==> s1[i] != 10);
    lemma_lines_no_newline_prefix(s1, rest1, Seq::empty());
    assert(Seq::<u8>::empty() + s1 =~= s1);
    assert(rest1[0] == 10);
    assert(strip_cr(s1) =~= hdr);
    assert(rest1.skip(1) =~= hx + seq![13u8, 10u8]);
    // Split off the PDU line.
    let s2 = hx + seq![13u8];
    let rest2 = seq![10u8];
    assert(hx + seq![13u8, 10u8] =~= s2 + rest2);
    assert(forall|i: int| 0 <= i < s2.len() ==> s2[i] != 10) by {
        assert(forall|i: int| 0 <= i < hx.len() ==> is_hex_byte(#[trigger] hx[i]));
    }
    lemma_lines_no_newline_prefix(s2, rest2, Seq::empty());
    assert(Seq::<u8>::empty() + s2 =~= s2);
    assert(strip_cr(s2) =~= hx);
    assert(rest2.skip(1) =~= Seq::<u8>::empty());
    assert(spec_lines_acc(rest2.skip(1), Seq::empty()) =~= Seq::<Seq<u8>>::empty());
    assert(spec_lines(listing) =~= seq![hdr, hx]);
    // Decode the two lines.
    let ls = seq![hdr, hx];
    assert(ls.skip(2) =~= Seq::<Seq<u8>>::empty());
    assert(spec_decode_lines(ls.skip(2)).0 =~= Seq::<(Seq<u8>, Seq<u8>, Seq<u8>, u32)>::empty());
    assert(spec_decode_lines(ls.skip(2)).1 == 0);
    assert(spec_parse_record(hx) == Some((r, t)));
    assert(ls[0] == hdr && ls[1] == hx);
    assert(spec_decode_lines(ls).0 == seq![(r, t, hx, ix)] + spec_decode_lines(ls.skip(2)).0);
    assert(spec_decode_lines(ls).0 =~= seq![(r, t, hx, ix)]);
    assert(spec_decode_lines(ls).1 == 0);
}

} // verus!

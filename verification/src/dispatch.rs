//! Outbound dispatch: the exact command lines of a send, and the reading
//! of its final response.
//!
//! A send is two transactions: the prepare line `AT+CMGS=<octet count>`,
//! then the hex PDU body terminated by the control-Z byte.  Startup puts
//! every modem in PDU mode (`AT+CMGF=0`) and configures notifications
//! (`AT+CNMI=2,1,0,0,0`); the poller lists with `AT+CMGL=4`.  These exact
//! byte strings are part of the modem protocol surface and are pinned here.

use vstd::prelude::*;
use crate::ErrorKind;
use crate::channel::CommandResult;
use crate::hexbytes::{hex_encode_bytes, hex_lower};
use crate::listing::{parse_header_index, spec_lines, spec_parse_header_index, split_lines};
use crate::pdu::{copy_range, digit_vals, encode, spec_submit_pdu, valid_recipient, valid_text,
    EncodingError, SmsPdu};

verus! {

/// The bytes of "AT+CMGF=0": switch the modem to PDU mode.
pub open spec fn spec_cmd_pdu_mode() -> Seq<u8> {
    seq![65u8, 84u8, 43u8, 67u8, 77u8, 71u8, 70u8, 61u8, 48u8]
}

/// The bytes of "AT+CNMI=2,1,0,0,0": configure new-message notifications.
pub open spec fn spec_cmd_notifications() -> Seq<u8> {
    seq![
        65u8,
        84u8,
        43u8,
        67u8,
        78u8,
        77u8,
        73u8,
        61u8,
        50u8,
        44u8,
        49u8,
        44u8,
        48u8,
        44u8,
        48u8,
        44u8,
        48u8,
    ]
}

/// The bytes of "AT+CMGL=4": list all stored messages.
pub open spec fn spec_cmd_list_all() -> Seq<u8> {
    seq![65u8, 84u8, 43u8, 67u8, 77u8, 71u8, 76u8, 61u8, 52u8]
}

/// The bytes of "AT+CMGS=" before the octet count.
pub open spec fn spec_cmgs_prefix() -> Seq<u8> {
    seq![65u8, 84u8, 43u8, 67u8, 77u8, 71u8, 83u8, 61u8]
}

/// Decimal ASCII digits of a byte value, without leading zeros.
pub open spec fn spec_dec_u8(n: u8) -> Seq<u8> {
    if n < 10 {
        seq![(48 + n) as u8]
    } else if n < 100 {
        seq![(48 + n / 10) as u8, (48 + n % 10) as u8]
    } else {
        seq![(48 + n / 100) as u8, (48 + (n / 10) % 10) as u8, (48 + n % 10) as u8]
    }
}

/// The full prepare line "AT+CMGS=<n>", where `n` is the transfer-layer
/// octet count: the length of the unit excluding its leading SMSC-info
/// octet, as the command set defines it.
pub open spec fn spec_cmgs_command(n: u8) -> Seq<u8> {
    spec_cmgs_prefix() + spec_dec_u8(n)
}

/// "AT+CMGF=0" as bytes.
pub fn cmd_pdu_mode() -> (r: Vec<u8>)
    ensures
        r@ == spec_cmd_pdu_mode(),
{
    let mut v: Vec<u8> = Vec::new();
    v.push(65);
    v.push(84);
    v.push(43);
    v.push(67);
    v.push(77);
    v.push(71);
    v.push(70);
    v.push(61);
    v.push(48);
    proof {
        assert(v@ =~= spec_cmd_pdu_mode());
    }
    v
}

/// "AT+CNMI=2,1,0,0,0" as bytes.
pub fn cmd_notifications() -> (r: Vec<u8>)
    ensures
        r@ == spec_cmd_notifications(),
{
    let mut v: Vec<u8> = Vec::new();
    v.push(65);
    v.push(84);
    v.push(43);
    v.push(67);
    v.push(78);
    v.push(77);
    v.push(73);
    v.push(61);
    v.push(50);
    v.push(44);
    v.push(49);
    v.push(44);
    v.push(48);
    v.push(44);
    v.push(48);
    v.push(44);
    v.push(48);
    proof {
        assert(v@ =~= spec_cmd_notifications());
    }
    v
}

/// "AT+CMGL=4" as bytes.
pub fn cmd_list_all() -> (r: Vec<u8>)
    ensures
        r@ == spec_cmd_list_all(),
{
    let mut v: Vec<u8> = Vec::new();
    v.push(65);
    v.push(84);
    v.push(43);
    v.push(67);
    v.push(77);
    v.push(71);
    v.push(76);
    v.push(61);
    v.push(52);
    proof {
        assert(v@ =~= spec_cmd_list_all());
    }
    v
}

/// Decimal ASCII digits of a byte value.
pub fn dec_u8(n: u8) -> (r: Vec<u8>)
    ensures
        r@ == spec_dec_u8(n),
{
    let mut v: Vec<u8> = Vec::new();
    if n < 10 {
        v.push(48 + n);
        proof {
            assert(v@ =~= spec_dec_u8(n));
        }
    } else if n < 100 {
        v.push(48 + n / 10);
        v.push(48 + n % 10);
        proof {
            assert(v@ =~= spec_dec_u8(n));
        }
    } else {
        v.push(48 + n / 100);
        v.push(48 + (n / 10) % 10);
        v.push(48 + n % 10);
        proof {
            assert(v@ =~= spec_dec_u8(n));
        }
    }
    v
}

/// Everything a send needs once the lease is held: the prepare line, the
/// body (hex PDU plus control-Z), and the unit itself.
pub struct SendPlan {
    /// "AT+CMGS=<octet count excluding the SMSC-info octet>".
    pub prepare: Vec<u8>,
    /// Hex rendering of the unit, terminated by the control-Z byte 0x1A.
    pub body: Vec<u8>,
    /// The encoded unit.
    pub pdu: SmsPdu,
}

impl SendPlan {
    /// The lines really belong to the unit.
    pub open spec fn wf(&self) -> bool {
        &&& self.pdu.wf()
        &&& self.prepare@ == spec_cmgs_command((self.pdu.bytes@.len() - 1) as u8)
        &&& self.body@ == hex_lower(self.pdu.bytes@) + seq![26u8]
    }
}

/// Validate and encode one send: exactly the checks of `encode`, then the
/// two command lines for the unit it produced.
pub fn plan_send(recipient: &[u8], text: &[u8]) -> (r: Result<SendPlan, EncodingError>)
    ensures
        match r {
            Ok(plan) => {
                &&& valid_recipient(recipient@)
                &&& valid_text(text@)
                &&& plan.wf()
                &&& plan.pdu.recipient@ == recipient@
                &&& plan.pdu.text@ == text@
                &&& plan.pdu.bytes@ == spec_submit_pdu(digit_vals(recipient@), text@)
            },
            Err(EncodingError::BadRecipient) => !valid_recipient(recipient@),
            Err(EncodingError::TooLong) => valid_recipient(recipient@) && text@.len() > 140,
        },
{
    let pdu = match encode(recipient, text) {
        Ok(p) => p,
        Err(e) => {
            return Err(e);
        },
    };
    proof {
        crate::pdu::lemma_submit_pdu_shape(digit_vals(recipient@), text@);
        crate::pdu::lemma_semi_octets_len(digit_vals(recipient@));
        assert(pdu.bytes@.len() <= 159);
        assert(pdu.bytes@.len() >= 10);
    }
    // The command set counts the transfer-layer octets only: the leading
    // SMSC-info octet is excluded.
    let octets = (pdu.bytes.len() - 1) as u8;
    let mut prepare = Vec::new();
    prepare.push(65);
    prepare.push(84);
    prepare.push(43);
    prepare.push(67);
    prepare.push(77);
    prepare.push(71);
    prepare.push(83);
    prepare.push(61);
    let ghost prefix = prepare@;
    proof {
        assert(prefix =~= spec_cmgs_prefix());
    }
    let mut digits = dec_u8(octets);
    prepare.append(&mut digits);
    proof {
        assert(prepare@ =~= spec_cmgs_command(octets));
    }
    let mut body = hex_encode_bytes(pdu.bytes.as_slice());
    body.push(26);
    proof {
        assert(body@ =~= hex_lower(pdu.bytes@) + seq![26u8]);
    }
    Ok(SendPlan { prepare, body, pdu })
}

/// The bytes of the "+CMGS:" send-reply tag.
pub open spec fn cmgs_reply_magic() -> Seq<u8> {
    seq![43u8, 67u8, 77u8, 71u8, 83u8, 58u8]
}

/// Whether a response line carries the modem's send reply.
pub open spec fn is_cmgs_line(l: Seq<u8>) -> bool {
    l.len() >= 6 && l.subrange(0, 6) == cmgs_reply_magic()
}

/// The modem-assigned message reference a response declares: the number
/// on the first "+CMGS:" line.  A response without such a line — or whose
/// first such line carries no parsable number — declares none.
pub open spec fn spec_message_ref(ls: Seq<Seq<u8>>) -> Option<u32>
    decreases ls.len(),
{
    if ls.len() == 0 {
        None
    } else if is_cmgs_line(ls[0]) {
        spec_parse_header_index(ls[0])
    } else {
        spec_message_ref(ls.skip(1))
    }
}

/// Whether a response line carries the "+CMGS:" send reply.
pub fn is_cmgs(l: &[u8]) -> (r: bool)
    ensures
        r == is_cmgs_line(l@),
{
    if l.len() < 6 {
        return false;
    }
    let r = l[0] == 43 && l[1] == 67 && l[2] == 77 && l[3] == 71 && l[4] == 83 && l[5] == 58;
    proof {
        assert(forall|k: int| 0 <= k < 6 ==> l@.subrange(0, 6)[k] == l@[k]);
        if r {
            assert(l@.subrange(0, 6) =~= cmgs_reply_magic());
        }
    }
    r
}

/// Read the final response of a send: the modem-assigned message
/// reference, parsed from its "+CMGS: <n>" line, exactly when the success
/// terminator matched and the reference is there to parse; a protocol
/// failure otherwise.
#[verifier::loop_isolation(false)]
pub fn complete_send(res: &CommandResult) -> (r: Result<u32, ErrorKind>)
    ensures
        r is Ok <==> res.success && spec_message_ref(spec_lines(res.response@)) is Some,
        match r {
            Ok(id) => spec_message_ref(spec_lines(res.response@)) == Some(id),
            Err(e) => e == ErrorKind::ProtocolError,
        },
{
    if !res.success {
        return Err(ErrorKind::ProtocolError);
    }
    let lines = split_lines(res.response.as_slice());
    let ghost ls = spec_lines(res.response@);
    let mut i: usize = 0;
    proof {
        assert(ls.skip(0) =~= ls);
    }
    while i < lines.len()
        invariant
            i <= lines@.len(),
            lines@.map_values(|l: Vec<u8>| l@) == ls,
            spec_message_ref(ls) == spec_message_ref(ls.skip(i as int)),
        decreases lines@.len() - i,
    {
        let ghost rest = ls.skip(i as int);
        proof {
            assert(lines@.map_values(|l: Vec<u8>| l@)[i as int] == lines@[i as int]@);
            assert(rest[0] == ls[i as int]);
            assert(rest.skip(1) =~= ls.skip(i as int + 1));
        }
        if is_cmgs(lines[i].as_slice()) {
            return match parse_header_index(lines[i].as_slice()) {
                Some(id) => Ok(id),
                None => Err(ErrorKind::ProtocolError),
            };
        }
        i = i + 1;
    }
    proof {
        assert(ls.skip(i as int) =~= Seq::<Seq<u8>>::empty());
    }
    Err(ErrorKind::ProtocolError)
}

/// The record pushed downstream for a confirmed outbound send:
/// `<recipient>:<message>`.
pub fn format_outbound(recipient: &[u8], text: &[u8]) -> (r: Vec<u8>)
    ensures
        r@ == recipient@ + seq![58u8] + text@,
{
    let mut v = copy_range(recipient, 0, recipient.len());
    v.push(58);
    let mut t = copy_range(text, 0, text.len());
    v.append(&mut t);
    proof {
        assert(v@ =~= recipient@ + seq![58u8] + text@);
    }
    v
}

} // verus!

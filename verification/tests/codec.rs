//! Codec behaviour: PDU encoding, listing decoding, and their round trip.

use sms_engine::listing::{decode, decode_record, is_header, parse_header_index};
use sms_engine::pdu::{encode, parse_submit, EncodingError};

fn pdu_bytes_for(recipient: &[u8], text: &[u8]) -> Vec<u8> {
    let pdu = encode(recipient, text).expect("encodes");
    pdu.bytes.clone()
}

#[test]
fn concrete_pdu_layout() {
    // Recipient "15550001234", message "hello".
    let pdu = encode(b"15550001234", b"hello").expect("encodes");
    let b = &pdu.bytes;
    // Header: default SMSC, SUBMIT first octet, reference 0.
    assert_eq!(b[0], 0x00);
    assert_eq!(b[1], 0x11);
    assert_eq!(b[2], 0x00);
    // Address: 11 digits, international, semi-octet packed with padding —
    // twelve BCD nibbles, not raw ASCII digits.
    assert_eq!(b[3], 0x0B);
    assert_eq!(b[4], 0x91);
    assert_eq!(&b[5..11], &[0x51, 0x55, 0x00, 0x10, 0x32, 0xF4]);
    // Protocol id, 8-bit coding scheme, validity.
    assert_eq!(b[11], 0x00);
    assert_eq!(b[12], 0x04);
    assert_eq!(b[13], 0xAA);
    // User-data length 0x05 and the payload itself.
    assert_eq!(b[14], 0x05);
    assert_eq!(&b[15..], b"hello");
    assert_eq!(b.len(), 20);
}

#[test]
fn declared_length_equals_payload_octets() {
    for text in [&b""[..], b"x", b"hello", b"a longer message with spaces."] {
        let pdu = encode(b"491701234567", text).expect("encodes");
        assert_eq!(pdu.udl() as usize, text.len());
        let ns = (12 + 1) / 2;
        assert_eq!(pdu.bytes[8 + ns] as usize, text.len());
        // The true payload octet count: everything after the length field.
        assert_eq!(pdu.bytes.len() - (9 + ns), text.len());
    }
}

#[test]
fn longest_message_fits_and_longer_is_rejected() {
    let max = vec![b'a'; 140];
    let pdu = encode(b"15550001234", &max).expect("140 octets fit");
    assert_eq!(pdu.udl(), 140);
    let over = vec![b'a'; 141];
    assert_eq!(encode(b"15550001234", &over).unwrap_err(), EncodingError::TooLong);
}

#[test]
fn bad_recipients_are_rejected() {
    assert_eq!(encode(b"", b"hi").unwrap_err(), EncodingError::BadRecipient);
    assert_eq!(encode(b"12a45", b"hi").unwrap_err(), EncodingError::BadRecipient);
    assert_eq!(encode(b"+4917012345", b"hi").unwrap_err(), EncodingError::BadRecipient);
    assert_eq!(
        encode(b"123456789012345678901", b"hi").unwrap_err(),
        EncodingError::BadRecipient
    );
}

#[test]
fn arbitrary_payload_octets_round_trip() {
    // The coding scheme is 8-bit data: any octets go through verbatim,
    // UTF-8 text included.
    let text = "héllo wörld ✓".as_bytes();
    let b = pdu_bytes_for(b"15550001234", text);
    let (sender, decoded) = parse_submit(&b).expect("parses");
    assert_eq!(sender, b"15550001234".to_vec());
    assert_eq!(decoded, text.to_vec());
}

#[test]
fn parse_submit_inverts_encode() {
    let b = pdu_bytes_for(b"15550001234", b"hello world");
    let (sender, text) = parse_submit(&b).expect("parses");
    assert_eq!(sender, b"15550001234".to_vec());
    assert_eq!(text, b"hello world".to_vec());
}

#[test]
fn parse_submit_rejects_corrupt_units() {
    let good = pdu_bytes_for(b"15550001234", b"hello");
    assert!(parse_submit(&good).is_some());
    let mut short = good.clone();
    short.pop();
    assert!(parse_submit(&short).is_none());
    let mut wrong_first_octet = good.clone();
    wrong_first_octet[1] = 0x04;
    assert!(parse_submit(&wrong_first_octet).is_none());
    let mut wrong_udl = good.clone();
    wrong_udl[14] = 6;
    assert!(parse_submit(&wrong_udl).is_none());
    assert!(parse_submit(&[]).is_none());
}

#[test]
fn round_trip_through_synthetic_listing() {
    let b = pdu_bytes_for(b"15550001234", b"hello");
    let mut listing = b"+CMGL: 2,1,,20\r\n".to_vec();
    listing.extend_from_slice(hex::encode(&b).as_bytes());
    listing.extend_from_slice(b"\r\n");
    let out = decode(&listing);
    assert_eq!(out.malformed, 0);
    assert_eq!(out.messages.len(), 1);
    let m = &out.messages[0];
    assert_eq!(m.sender, b"15550001234".to_vec());
    assert_eq!(m.text, b"hello".to_vec());
    assert_eq!(m.index, 2);
    assert_eq!(m.pdu, hex::encode(&b).into_bytes());
}

#[test]
fn round_trip_many_records() {
    let b1 = pdu_bytes_for(b"15550001234", b"first message");
    let b2 = pdu_bytes_for(b"442071234567", b"second one");
    let mut listing = Vec::new();
    listing.extend_from_slice(b"+CMGL: 0,1,,20\r\n");
    listing.extend_from_slice(hex::encode(&b1).as_bytes());
    listing.extend_from_slice(b"\r\n+CMGL: 5,1,,19\r\n");
    listing.extend_from_slice(hex::encode(&b2).as_bytes());
    listing.extend_from_slice(b"\r\nOK\r\n");
    let out = decode(&listing);
    assert_eq!(out.malformed, 0);
    assert_eq!(out.messages.len(), 2);
    assert_eq!(out.messages[0].text, b"first message".to_vec());
    assert_eq!(out.messages[0].index, 0);
    assert_eq!(out.messages[1].sender, b"442071234567".to_vec());
    assert_eq!(out.messages[1].index, 5);
}

#[test]
fn listing_without_header_is_empty_not_an_error() {
    let out = decode(b"\r\nOK\r\n");
    assert_eq!(out.messages.len(), 0);
    assert_eq!(out.malformed, 0);
    let out2 = decode(b"");
    assert_eq!(out2.messages.len(), 0);
    assert_eq!(out2.malformed, 0);
}

#[test]
fn malformed_record_is_counted_and_skipped() {
    let good = pdu_bytes_for(b"15550001234", b"kept");
    let mut listing = Vec::new();
    listing.extend_from_slice(b"+CMGL: 1,1,,10\r\nnot-hex-at-all\r\n");
    listing.extend_from_slice(b"+CMGL: 2,1,,20\r\n");
    listing.extend_from_slice(hex::encode(&good).as_bytes());
    listing.extend_from_slice(b"\r\n");
    let out = decode(&listing);
    assert_eq!(out.malformed, 1);
    assert_eq!(out.messages.len(), 1);
    assert_eq!(out.messages[0].text, b"kept".to_vec());
    assert_eq!(out.messages[0].index, 2);
}

#[test]
fn trailing_header_without_pdu_line_is_malformed() {
    let out = decode(b"+CMGL: 3,1,,20");
    assert_eq!(out.messages.len(), 0);
    assert_eq!(out.malformed, 1);
}

#[test]
fn header_detection_and_index() {
    assert!(is_header(b"+CMGL: 4,1,,20"));
    assert!(!is_header(b"OK"));
    assert!(!is_header(b"+CMG"));
    assert_eq!(parse_header_index(b"+CMGL: 12,1,,24"), Some(12));
    assert_eq!(parse_header_index(b"+CMGL:7"), Some(7));
    assert_eq!(parse_header_index(b"+CMGL: ,1"), None);
    assert_eq!(parse_header_index(b"+CMGL: 999999999,1"), Some(999_999_999));
    assert_eq!(parse_header_index(b"+CMGL: 1234567890,1"), None);
}

#[test]
fn round_trip_at_maximum_length() {
    let text: Vec<u8> = (0..140).map(|i| b' ' + (i % 95) as u8).collect();
    let b = pdu_bytes_for(b"44123456789012345678", &text);
    let mut listing = b"+CMGL: 9,1,,160".to_vec();
    listing.extend_from_slice(b"\n");
    listing.extend_from_slice(hex::encode(&b).as_bytes());
    // No trailing newline: the final unterminated line still counts.
    let out = decode(&listing);
    assert_eq!(out.malformed, 0);
    assert_eq!(out.messages.len(), 1);
    assert_eq!(out.messages[0].sender, b"44123456789012345678".to_vec());
    assert_eq!(out.messages[0].text, text);
    assert_eq!(out.messages[0].index, 9);
}

#[test]
fn decode_record_decodes_hex_then_parses() {
    let b = pdu_bytes_for(b"15550001234", b"ping");
    let line = hex::encode(&b).into_bytes();
    let (sender, text) = decode_record(&line).expect("decodes");
    assert_eq!(sender, b"15550001234".to_vec());
    assert_eq!(text, b"ping".to_vec());
    // An odd-length or non-hex line is refused by the hex layer.
    assert!(decode_record(b"0011f").is_none());
    assert!(decode_record(b"zz").is_none());
}

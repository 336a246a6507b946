use cthulhu::message::{build_message, MessageHeader, MAGIC_TESTNET};
use cthulhu::parser::{accept_payload, check_header};

#[test]
fn header_for_empty_payload() {
    let h = MessageHeader::new("verack", &[], MAGIC_TESTNET);
    assert_eq!(h.magic, MAGIC_TESTNET);
    assert_eq!(&h.command[..6], b"verack");
    assert_eq!(&h.command[6..], &[0u8; 6]);
    assert_eq!(h.length, 0);
    assert_eq!(h.checksum, [0x5d, 0xf6, 0xe0, 0xe2]);
}

#[test]
fn header_command_longer_than_twelve_bytes_is_cut() {
    let h = MessageHeader::new("abcdefghijklmnop", &[1, 2, 3], MAGIC_TESTNET);
    assert_eq!(&h.command, b"abcdefghijkl");
    assert_eq!(h.length, 3);
}

#[test]
fn header_serialize_layout() {
    let h = MessageHeader::new("ping", &[1, 2, 3, 4, 5, 6, 7, 8], MAGIC_TESTNET);
    let bytes = h.serialize();
    assert_eq!(bytes.len(), 24);
    assert_eq!(&bytes[0..4], &MAGIC_TESTNET);
    assert_eq!(&bytes[4..8], b"ping");
    assert_eq!(&bytes[16..20], &[8, 0, 0, 0]);
    assert_eq!(&bytes[20..24], &h.checksum);
}

#[test]
fn header_roundtrip() {
    let h = MessageHeader::new("inv", &[9; 300], [1, 2, 3, 4]);
    let mut bytes = h.serialize();
    bytes.extend_from_slice(&[0xEE; 5]);
    let back = MessageHeader::deserialize(&bytes).unwrap();
    assert_eq!(back.magic, h.magic);
    assert_eq!(back.command, h.command);
    assert_eq!(back.length, 300);
    assert_eq!(back.checksum, h.checksum);
}

#[test]
fn header_too_short() {
    match MessageHeader::deserialize(&[0u8; 10]) {
        Err(e) => assert_eq!(e, "Header too short: got 10 bytes, need 24"),
        Ok(_) => panic!("accepted a short header"),
    }
    match MessageHeader::deserialize(&[]) {
        Err(e) => assert_eq!(e, "Header too short: got 0 bytes, need 24"),
        Ok(_) => panic!("accepted an empty header"),
    }
}

#[test]
fn command_string_stops_at_nul() {
    let h = MessageHeader::new("verack", &[], MAGIC_TESTNET);
    assert_eq!(h.command_string(), "verack");
    let full = MessageHeader::new("sendheadersx", &[], MAGIC_TESTNET);
    assert_eq!(full.command_string(), "sendheadersx");
}

#[test]
fn command_string_replaces_invalid_utf8() {
    let mut h = MessageHeader::new("", &[], MAGIC_TESTNET);
    h.command[0] = b'a';
    h.command[1] = 0xFF;
    assert_eq!(h.command_string(), "a\u{FFFD}");
}

#[test]
fn built_message_is_header_then_payload() {
    let payload = [0xAB, 0xCD];
    let m = build_message("tx", &payload, MAGIC_TESTNET);
    assert_eq!(m.len(), 26);
    assert_eq!(&m[24..], &payload);
    let h = MessageHeader::deserialize(&m).unwrap();
    assert_eq!(h.command_string(), "tx");
    assert_eq!(h.length, 2);
}

#[test]
fn built_message_is_accepted_by_reader() {
    let payload: Vec<u8> = (0..100u8).collect();
    let m = build_message("block", &payload, MAGIC_TESTNET);
    let h = MessageHeader::deserialize(&m[..24]).unwrap();
    assert_eq!(check_header(&h, MAGIC_TESTNET), Ok(100));
    let msg = accept_payload(h, m[24..].to_vec()).expect("checksum matches");
    assert_eq!(msg.command, "block");
    assert_eq!(msg.payload, payload);
}

#[test]
fn reader_rejects_other_network() {
    let m = build_message("ping", &[0; 8], [0xF9, 0xBE, 0xB4, 0xD9]);
    let h = MessageHeader::deserialize(&m).unwrap();
    assert_eq!(
        check_header(&h, MAGIC_TESTNET),
        Err("Magic bytes mismatch — possible wrong network or parser desync".to_string())
    );
}

#[test]
fn reader_rejects_oversized_payload() {
    let mut h = MessageHeader::new("block", &[], MAGIC_TESTNET);
    h.length = 32 * 1024 * 1024 + 1;
    assert_eq!(
        check_header(&h, MAGIC_TESTNET),
        Err("Payload claims to be 33554433 bytes — exceeds 32MB max".to_string())
    );
    h.length = 32 * 1024 * 1024;
    assert_eq!(check_header(&h, MAGIC_TESTNET), Ok(32 * 1024 * 1024));
}

#[test]
fn reader_drops_payload_with_wrong_checksum() {
    let m = build_message("ping", &[1, 2, 3, 4, 5, 6, 7, 8], MAGIC_TESTNET);
    let h = MessageHeader::deserialize(&m).unwrap();
    assert!(accept_payload(h, vec![1, 2, 3, 4, 5, 6, 7, 9]).is_none());
}

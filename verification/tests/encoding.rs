use cthulhu::encoding::{decode_varint, encode_net_addr, encode_varint, encode_varstr};

#[test]
fn varint_single_byte_below_fd() {
    assert_eq!(encode_varint(0), vec![0x00]);
    assert_eq!(encode_varint(0xFC), vec![0xFC]);
}

#[test]
fn varint_two_byte_form() {
    assert_eq!(encode_varint(0xFD), vec![0xFD, 0xFD, 0x00]);
    assert_eq!(encode_varint(0xFFFF), vec![0xFD, 0xFF, 0xFF]);
}

#[test]
fn varint_four_byte_form() {
    assert_eq!(encode_varint(0x1_0000), vec![0xFE, 0x00, 0x00, 0x01, 0x00]);
    assert_eq!(encode_varint(0xFFFF_FFFF), vec![0xFE, 0xFF, 0xFF, 0xFF, 0xFF]);
}

#[test]
fn varint_eight_byte_form() {
    assert_eq!(
        encode_varint(0x1_0000_0000),
        vec![0xFF, 0x00, 0x00, 0x00, 0x00, 0x01, 0x00, 0x00, 0x00]
    );
    assert_eq!(encode_varint(u64::MAX), vec![0xFF; 9]);
}

#[test]
fn varint_roundtrip_inside_buffer() {
    for n in [0u64, 1, 0xFC, 0xFD, 0x1234, 0xFFFF, 0x1_0000, 0xDEAD_BEEF, 0x1_0000_0000, u64::MAX] {
        let mut buf = vec![0xAA, 0xBB];
        let enc = encode_varint(n);
        buf.extend_from_slice(&enc);
        buf.extend_from_slice(&[0x01, 0x02, 0x03]);
        assert_eq!(decode_varint(&buf, 2), Ok((n, enc.len())));
    }
}

#[test]
fn varint_decode_accepts_non_canonical_forms() {
    assert_eq!(decode_varint(&[0xFD, 0x05, 0x00], 0), Ok((5, 3)));
    assert_eq!(decode_varint(&[0xFE, 0x05, 0x00, 0x00, 0x00], 0), Ok((5, 5)));
}

#[test]
fn varint_decode_errors() {
    assert_eq!(decode_varint(&[], 0), Err("Buffer too short for varint".to_string()));
    assert_eq!(decode_varint(&[0x01], 1), Err("Buffer too short for varint".to_string()));
    assert_eq!(decode_varint(&[0xFD, 0x01], 0), Err("Buffer too short for 2-byte varint".to_string()));
    assert_eq!(decode_varint(&[0xFE, 0x01, 0x02, 0x03], 0), Err("Buffer too short for 4-byte varint".to_string()));
    assert_eq!(decode_varint(&[0xFF, 1, 2, 3, 4, 5, 6, 7], 0), Err("Buffer too short for 8-byte varint".to_string()));
}

#[test]
fn varstr_counts_utf8_bytes() {
    assert_eq!(encode_varstr(""), vec![0x00]);
    assert_eq!(encode_varstr("abc"), vec![0x03, b'a', b'b', b'c']);
    assert_eq!(encode_varstr("é"), vec![0x02, 0xC3, 0xA9]);
}

#[test]
fn net_addr_layout() {
    let v = encode_net_addr(1, [192, 168, 1, 2], 18333);
    let mut expected = vec![1, 0, 0, 0, 0, 0, 0, 0];
    expected.extend_from_slice(&[0; 10]);
    expected.extend_from_slice(&[0xFF, 0xFF, 192, 168, 1, 2]);
    expected.extend_from_slice(&[0x47, 0x9D]);
    assert_eq!(v.len(), 26);
    assert_eq!(v, expected);
}

use cthulhu::version::{build_version_payload, decode_version_payload, version_payload_with_nonce};

fn our_payload() -> Vec<u8> {
    version_payload_with_nonce([10, 0, 0, 1], 18333, 1_700_000_000, 0x0123_4567_89AB_CDEF)
}

#[test]
fn version_payload_layout() {
    let p = our_payload();
    assert_eq!(p.len(), 113);
    assert_eq!(&p[0..4], &70015i32.to_le_bytes());
    assert_eq!(&p[4..12], &[0; 8]);
    assert_eq!(&p[12..20], &1_700_000_000i64.to_le_bytes());
    assert_eq!(&p[20..28], &1u64.to_le_bytes());
    assert_eq!(&p[38..46], &[0xFF, 0xFF, 10, 0, 0, 1, 0x47, 0x9D]);
    assert_eq!(&p[46..72], &[0u8, 0, 0, 0, 0, 0, 0, 0, 0, 0, 0, 0, 0, 0, 0, 0, 0, 0, 0xFF, 0xFF, 0, 0, 0, 0, 0, 0][..]);
    assert_eq!(&p[72..80], &0x0123_4567_89AB_CDEFu64.to_le_bytes());
    assert_eq!(p[80], 27);
    assert_eq!(&p[81..108], b"/rust-bitcoin-client:0.1.0/");
    assert_eq!(&p[108..112], &[0, 0, 0, 0]);
    assert_eq!(p[112], 1);
}

#[test]
fn random_nonce_payload_differs_only_in_nonce() {
    let p = build_version_payload([10, 0, 0, 1], 18333, 1_700_000_000);
    let q = our_payload();
    assert_eq!(p.len(), 113);
    assert_eq!(&p[..72], &q[..72]);
    assert_eq!(&p[80..], &q[80..]);
}

#[test]
fn our_payload_reads_back() {
    assert_eq!(
        decode_version_payload(&our_payload()),
        Ok("version=70015 services=0x0000000000000000 timestamp=1700000000 nonce=0123456789ABCDEF user_agent='/rust-bitcoin-client:0.1.0/' height=0".to_string())
    );
}

#[test]
fn negative_fields_are_signed() {
    let mut p = our_payload();
    p[0..4].copy_from_slice(&(-1i32).to_le_bytes());
    p[12..20].copy_from_slice(&(-5i64).to_le_bytes());
    p[108..112].copy_from_slice(&(-7i32).to_le_bytes());
    assert_eq!(
        decode_version_payload(&p),
        Ok("version=-1 services=0x0000000000000000 timestamp=-5 nonce=0123456789ABCDEF user_agent='/rust-bitcoin-client:0.1.0/' height=-7".to_string())
    );
}

#[test]
fn version_payload_errors() {
    assert_eq!(decode_version_payload(&[0; 45]), Err("Version payload too short: 45 bytes".to_string()));
    assert_eq!(decode_version_payload(&[0; 60]), Err("Payload truncated at nonce".to_string()));
    assert_eq!(decode_version_payload(&[0; 80]), Err("Buffer too short for varint".to_string()));
    let p = our_payload();
    assert_eq!(decode_version_payload(&p[..100]), Err("Payload truncated at user_agent".to_string()));
    assert_eq!(decode_version_payload(&p[..110]), Err("Payload truncated at start_height".to_string()));
}

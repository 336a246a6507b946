use cthulhu::command::{connect, disconnect, mempool_request_sent, request_mempool, request_tx, txid_fields_ok};
use cthulhu::crypto::hex_encode;
use cthulhu::node::NodeState;

const TXID: &str = "0c71c052a0132c31f6228b45638666d2be1785d4b0768414b7ee72befe2cf9d0";

fn connected() -> NodeState {
    let mut s = NodeState::new();
    s.is_connected = true;
    s
}

#[test]
fn connect_only_once_until_disconnect() {
    let mut s = NodeState::new();
    assert_eq!(connect(&mut s), Ok("Connecting...".to_string()));
    assert!(s.should_run);
    assert_eq!(connect(&mut s), Err("Already connected or connecting".to_string()));
    assert_eq!(disconnect(&mut s), "Disconnecting...");
    assert!(!s.should_run);
    assert_eq!(connect(&mut s), Ok("Connecting...".to_string()));
}

#[test]
fn request_tx_builds_getdata() {
    let (payload, reply) = request_tx(TXID, &connected()).unwrap();
    assert_eq!(reply, "Requested TX: 0c71c052a0132c31...");
    assert_eq!(payload.len(), 37);
    assert_eq!(&payload[..5], &[0x01, 0x01, 0x00, 0x00, 0x40]);
    let mut display = payload[5..].to_vec();
    display.reverse();
    assert_eq!(hex_encode(&display), TXID);
}

#[test]
fn request_tx_accepts_upper_case() {
    let upper = TXID.to_uppercase();
    let (payload, _) = request_tx(&upper, &connected()).unwrap();
    let (expected, _) = request_tx(TXID, &connected()).unwrap();
    assert_eq!(payload, expected);
}

#[test]
fn request_tx_reads_plus_sign_like_from_str_radix() {
    let text = format!("+f{}", &TXID[2..]);
    let (payload, reply) = request_tx(&text, &connected()).unwrap();
    assert_eq!(payload[36], 0x0f);
    assert_eq!(reply, "Requested TX: +f71c052a0132c31...");
}

#[test]
fn request_tx_errors() {
    assert_eq!(request_tx("abcd", &connected()), Err("TXID must be exactly 64 hex characters".to_string()));
    let bad = format!("zz{}", &TXID[2..]);
    assert_eq!(request_tx(&bad, &connected()), Err("Invalid hex character in TXID".to_string()));
    let minus = format!("-1{}", &TXID[2..]);
    assert_eq!(request_tx(&minus, &connected()), Err("Invalid hex character in TXID".to_string()));
    assert_eq!(request_tx(TXID, &NodeState::new()), Err("Not connected to a peer".to_string()));
}

#[test]
fn txid_fields_on_char_boundaries() {
    assert!(txid_fields_ok(TXID));
    assert!(txid_fields_ok("short"));
    // A two-byte character at an even offset fails to read but stays on boundaries.
    let even = format!("é{}", &TXID[2..]);
    assert!(txid_fields_ok(&even));
    assert_eq!(request_tx(&even, &connected()), Err("Invalid hex character in TXID".to_string()));
    // A two-byte character straddling a field edge would be cut.
    let odd = format!("0é{}", &TXID[3..]);
    assert_eq!(odd.len(), 64);
    assert!(!txid_fields_ok(&odd));
}

#[test]
fn mempool_request_needs_connection() {
    assert_eq!(request_mempool(&NodeState::new()), Err("Not connected to a peer".to_string()));
    let mut s = connected();
    assert_eq!(request_mempool(&s), Ok(()));
    s.mempool_done = true;
    assert_eq!(mempool_request_sent(&mut s), "Mempool request sent");
    assert!(s.mempool_requested);
    assert!(!s.mempool_done);
}

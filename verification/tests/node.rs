use cthulhu::crypto::hex_encode;
use cthulhu::encoding::encode_varint;
use cthulhu::node::{
    classify_script_simple, describe_input, describe_locktime, handle_message, parse_version_for_event,
    tx_outputs_fit, MessageOutcome, NodeAction, NodeState,
};
use cthulhu::transaction::TxInput;
use cthulhu::version::version_payload_with_nonce;

const LEGACY: [u8; 99] = [0x01, 0x00, 0x00, 0x00, 0x01, 0x11, 0x11, 0x11, 0x11, 0x11, 0x11, 0x11, 0x11, 0x11, 0x11, 0x11, 0x11, 0x11, 0x11, 0x11, 0x11, 0x11, 0x11, 0x11, 0x11, 0x11, 0x11, 0x11, 0x11, 0x11, 0x11, 0x11, 0x11, 0x11, 0x11, 0x11, 0x11, 0x02, 0x00, 0x00, 0x00, 0x03, 0x01, 0x02, 0x03, 0xff, 0xff, 0xff, 0xff, 0x02, 0x00, 0xf2, 0x05, 0x2a, 0x01, 0x00, 0x00, 0x00, 0x19, 0x76, 0xa9, 0x14, 0xab, 0xab, 0xab, 0xab, 0xab, 0xab, 0xab, 0xab, 0xab, 0xab, 0xab, 0xab, 0xab, 0xab, 0xab, 0xab, 0xab, 0xab, 0xab, 0xab, 0x88, 0xac, 0xe8, 0x03, 0x00, 0x00, 0x00, 0x00, 0x00, 0x00, 0x02, 0x6a, 0x00, 0x00, 0x00, 0x00, 0x00];

fn handle(state: &mut NodeState, command: &str, payload: &[u8]) -> MessageOutcome {
    handle_message(state, &command.to_string(), payload, "10.0.0.1:18333")
}

fn inv_payload(entries: &[(u32, u8)]) -> Vec<u8> {
    let mut p = encode_varint(entries.len() as u64);
    for (t, fill) in entries {
        p.extend_from_slice(&t.to_le_bytes());
        let mut hash = [*fill; 32];
        hash[0] = 0x01;
        p.extend_from_slice(&hash);
    }
    p
}

#[test]
fn script_kinds() {
    let mut p2pkh = vec![0x76, 0xa9, 0x14];
    p2pkh.extend_from_slice(&[0; 20]);
    p2pkh.extend_from_slice(&[0x88, 0xac]);
    assert_eq!(classify_script_simple(&p2pkh), "P2PKH");
    let mut p2sh = vec![0xa9, 0x14];
    p2sh.extend_from_slice(&[0; 20]);
    p2sh.push(0x87);
    assert_eq!(classify_script_simple(&p2sh), "P2SH");
    let mut p2wpkh = vec![0x00, 0x14];
    p2wpkh.extend_from_slice(&[0; 20]);
    assert_eq!(classify_script_simple(&p2wpkh), "P2WPKH");
    let mut p2wsh = vec![0x00, 0x20];
    p2wsh.extend_from_slice(&[0; 32]);
    assert_eq!(classify_script_simple(&p2wsh), "P2WSH");
    assert_eq!(classify_script_simple(&[0x6a, 0x01, 0x02]), "OP_RETURN");
    assert_eq!(classify_script_simple(&[]), "UNKNOWN");
    assert_eq!(classify_script_simple(&[0x51]), "UNKNOWN");
}

#[test]
fn locktime_meanings() {
    assert_eq!(describe_locktime(0), "0 (no restriction)");
    assert_eq!(describe_locktime(499_999_999), "block 499999999");
    assert_eq!(describe_locktime(500_000_000), "unix 500000000");
}

#[test]
fn input_descriptions() {
    let coinbase = TxInput { prev_txid: [0; 32], prev_index: 0xFFFF_FFFF };
    assert_eq!(describe_input(&coinbase), "COINBASE (block reward)");
    let zero_index = TxInput { prev_txid: [0; 32], prev_index: 0 };
    assert_eq!(describe_input(&zero_index), "Spends 0000000000000000...  output #0");
    let mut txid = [0u8; 32];
    txid[31] = 0xAB;
    txid[30] = 0xCD;
    let spend = TxInput { prev_txid: txid, prev_index: 7 };
    assert_eq!(describe_input(&spend), "Spends abcd000000000000...  output #7");
}

#[test]
fn peer_info_from_our_version_payload() {
    let p = version_payload_with_nonce([1, 2, 3, 4], 18333, 42, 7);
    let info = parse_version_for_event(&p).unwrap();
    assert_eq!(info.protocol_version, 70015);
    assert_eq!(info.user_agent, "/rust-bitcoin-client:0.1.0/");
    assert_eq!(info.start_height, 0);
    assert_eq!(info.services, "0x0000000000000000");
}

#[test]
fn peer_info_tolerates_truncated_tail() {
    let mut p = version_payload_with_nonce([1, 2, 3, 4], 18333, 42, 7);
    p[4..12].copy_from_slice(&0x409u64.to_le_bytes());
    p.truncate(90);
    let info = parse_version_for_event(&p).unwrap();
    assert_eq!(info.user_agent, "/rust-bit");
    assert_eq!(info.start_height, 0);
    assert_eq!(info.services, "0x0000000000000409");
    assert!(parse_version_for_event(&p[..80]).is_err());
}

#[test]
fn version_is_answered_with_verack_and_peer_info() {
    let mut s = NodeState::new();
    let p = version_payload_with_nonce([1, 2, 3, 4], 18333, 42, 7);
    let out = handle(&mut s, "version", &p);
    assert_eq!(
        out.summary,
        "Sent verack. version=70015 services=0x0000000000000000 timestamp=42 nonce=0000000000000007 user_agent='/rust-bitcoin-client:0.1.0/' height=0"
    );
    assert_eq!(out.actions.len(), 2);
    match &out.actions[0] {
        NodeAction::Send { command, payload } => {
            assert_eq!(command, "verack");
            assert!(payload.is_empty());
        }
        _ => panic!("expected verack"),
    }
    assert!(matches!(&out.actions[1], NodeAction::PeerInfo(info) if info.protocol_version == 70015));
}

#[test]
fn unreadable_version_is_still_acknowledged() {
    let mut s = NodeState::new();
    let out = handle(&mut s, "version", &[0; 10]);
    assert_eq!(out.summary, "Sent verack. parse error");
    assert_eq!(out.actions.len(), 1);
}

#[test]
fn verack_completes_handshake() {
    let mut s = NodeState::new();
    let out = handle(&mut s, "verack", &[]);
    assert!(s.is_connected);
    assert_eq!(out.summary, "Handshake complete");
    match &out.actions[0] {
        NodeAction::Connection(e) => {
            assert_eq!(e.status, "handshake_complete");
            assert_eq!(e.message, "Version handshake complete — receiving network data");
            assert_eq!(e.peer_address, "10.0.0.1:18333");
        }
        _ => panic!("expected a connection event"),
    }
    assert!(matches!(&out.actions[1], NodeAction::Send { command, .. } if command == "getaddr"));
}

#[test]
fn ping_is_answered_with_pong() {
    let mut s = NodeState::new();
    let nonce = 0x0011_2233_4455_6677u64.to_le_bytes();
    let out = handle(&mut s, "ping", &nonce);
    assert_eq!(out.summary, "nonce=0011223344556677 → sent pong");
    match &out.actions[0] {
        NodeAction::Send { command, payload } => {
            assert_eq!(command, "pong");
            assert_eq!(payload, &nonce.to_vec());
        }
        _ => panic!("expected pong"),
    }
    assert_eq!(handle(&mut s, "ping", &[1, 2]).summary, "malformed ping");
}

#[test]
fn pong_and_simple_summaries() {
    let mut s = NodeState::new();
    assert_eq!(handle(&mut s, "pong", &255u64.to_le_bytes()).summary, "nonce=00000000000000FF");
    assert_eq!(handle(&mut s, "pong", &[]).summary, "received");
    assert_eq!(handle(&mut s, "feefilter", &1000u64.to_le_bytes()).summary, "1000 sat/kB minimum");
    assert_eq!(handle(&mut s, "feefilter", &[1]).summary, "received");
    assert_eq!(handle(&mut s, "addr", &[0xFD, 0x10, 0x01]).summary, "272 peer addresses");
    assert_eq!(handle(&mut s, "addr", &[]).summary, "0 peer addresses");
    assert_eq!(handle(&mut s, "headers", &[3]).summary, "3 block headers");
    assert_eq!(handle(&mut s, "sendheaders", &[]).summary, "peer prefers header announcements");
    assert_eq!(handle(&mut s, "sendcmpct", &[0; 9]).summary, "peer supports compact blocks");
    assert_eq!(handle(&mut s, "getheaders", &[]).summary, "ignoring (no headers to serve)");
    assert_eq!(handle(&mut s, "getdata", &[]).summary, "ignoring (no data to serve)");
    assert_eq!(handle(&mut s, "reject", &[0; 12]).summary, "12 bytes");
    assert_eq!(handle(&mut s, "wtxidrelay", &[0; 3]).summary, "(3 bytes payload)");
    assert!(handle(&mut s, "wtxidrelay", &[]).actions.is_empty());
}

#[test]
fn block_summary_hashes_the_header() {
    let mut s = NodeState::new();
    let payload: Vec<u8> = (0..90u8).collect();
    assert_eq!(handle(&mut s, "block", &payload).summary, "hash=e40105b4d7aff1df...");
    assert_eq!(handle(&mut s, "block", &payload[..79]).summary, "truncated");
}

#[test]
fn notfound_is_reported() {
    let mut s = NodeState::new();
    let out = handle(&mut s, "notfound", &[2]);
    assert_eq!(out.summary, "peer does not have 2 requested item(s)");
    assert!(matches!(out.actions[0], NodeAction::NotFound));
}

#[test]
fn tx_is_decoded_and_reported() {
    let mut s = NodeState::new();
    assert!(tx_outputs_fit(&LEGACY));
    let out = handle(&mut s, "tx", &LEGACY);
    assert_eq!(out.summary, "txid=0c71c052a0132c31...");
    match &out.actions[0] {
        NodeAction::Transaction(e, values) => {
            assert_eq!(e.txid, "0c71c052a0132c31f6228b45638666d2be1785d4b0768414b7ee72befe2cf9d0");
            assert_eq!(e.fetched_from, "10.0.0.1:18333");
            assert_eq!(e.version, 1);
            assert!(!e.is_segwit);
            assert_eq!(e.input_count, 1);
            assert_eq!(e.output_count, 2);
            assert_eq!(e.total_output_sats, 5_000_001_000);
            assert_eq!(e.outputs, vec!["P2PKH".to_string(), "OP_RETURN".to_string()]);
            assert_eq!(e.inputs, vec!["Spends 1111111111111111...  output #2".to_string()]);
            assert_eq!(e.locktime, "0 (no restriction)");
            assert_eq!(values, &vec![5_000_000_000u64, 1000]);
        }
        _ => panic!("expected a transaction report"),
    }
}

#[test]
fn undecodable_tx_is_only_logged() {
    let mut s = NodeState::new();
    let out = handle(&mut s, "tx", &[1, 2, 3]);
    assert!(out.summary.starts_with("txid="));
    assert!(out.actions.is_empty());
}

#[test]
fn overflowing_outputs_are_detected() {
    let mut tx = LEGACY.to_vec();
    tx[50..58].copy_from_slice(&u64::MAX.to_le_bytes());
    tx[84..92].copy_from_slice(&1u64.to_le_bytes());
    assert!(!tx_outputs_fit(&tx));
    assert!(tx_outputs_fit(&[1, 2, 3]));
}

#[test]
fn announcement_lists_items() {
    let mut s = NodeState::new();
    let entries: Vec<(u32, u8)> = vec![(1, 0xAA), (2, 0xBB), (0x4000_0001, 0xCC), (7, 0xDD), (1, 0xEE), (2, 0x11), (1, 0x22)];
    let p = inv_payload(&entries);
    let out = handle(&mut s, "inv", &p);
    assert_eq!(
        out.summary,
        "7 item(s): TX aaaaaaaaaaaaaaaa..., BLOCK bbbbbbbbbbbbbbbb..., TX cccccccccccccccc..., OTHER dddddddddddddddd..., TX eeeeeeeeeeeeeeee... (+2 more)"
    );
    match &out.actions[0] {
        NodeAction::Announcement(items) => {
            assert_eq!(items.len(), 7);
            assert_eq!(items[1].item_type, "BLOCK");
            let mut display = [0xBBu8; 32];
            display[31] = 0x01;
            assert_eq!(items[1].hash, hex_encode(&display));
        }
        _ => panic!("expected an announcement"),
    }
}

#[test]
fn announcement_stops_at_truncated_entry() {
    let mut s = NodeState::new();
    let mut p = inv_payload(&[(1, 0xAA), (2, 0xBB)]);
    p.truncate(p.len() - 1);
    let out = handle(&mut s, "inv", &p);
    assert_eq!(out.summary, "2 item(s): TX aaaaaaaaaaaaaaaa...");
    match &out.actions[0] {
        NodeAction::Announcement(items) => assert_eq!(items.len(), 1),
        _ => panic!("expected an announcement"),
    }
}

#[test]
fn mempool_answer_then_announcements() {
    let mut s = NodeState::new();
    s.is_connected = true;
    s.mempool_requested = true;
    let entries: Vec<(u32, u8)> = (0..60).map(|i| (if i % 3 == 0 { 2 } else { 1 }, i as u8)).collect();
    let p = inv_payload(&entries);
    let out = handle(&mut s, "inv", &p);
    assert_eq!(out.summary, "MEMPOOL SNAPSHOT: 40 unconfirmed transactions");
    assert!(s.mempool_done);
    match &out.actions[0] {
        NodeAction::Mempool(e) => {
            assert_eq!(e.total_count, 40);
            assert_eq!(e.txids.len(), 40);
            let mut display = [1u8; 32];
            display[31] = 0x01;
            assert_eq!(e.txids[0], hex_encode(&display));
        }
        _ => panic!("expected a mempool snapshot"),
    }
    let next = handle(&mut s, "inv", &inv_payload(&[(1, 0x55)]));
    assert!(matches!(next.actions[0], NodeAction::Announcement(_)));
}

#[test]
fn mempool_preview_is_capped() {
    let mut s = NodeState::new();
    s.mempool_requested = true;
    let entries: Vec<(u32, u8)> = (0..70).map(|i| (1, i as u8)).collect();
    let out = handle(&mut s, "inv", &inv_payload(&entries));
    match &out.actions[0] {
        NodeAction::Mempool(e) => {
            assert_eq!(e.total_count, 70);
            assert_eq!(e.txids.len(), 50);
        }
        _ => panic!("expected a mempool snapshot"),
    }
}

#[test]
fn stopped_clears_running_and_connected() {
    let mut s = NodeState::new();
    s.is_connected = true;
    s.should_run = true;
    s.mempool_requested = true;
    s.stopped();
    assert!(!s.is_connected);
    assert!(!s.should_run);
    assert!(s.mempool_requested);
}

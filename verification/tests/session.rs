use cthulhu::node::{NodeAction, NodeState};
use cthulhu::session::{loop_step, loop_step_with_nonce, LoopEvent, LoopStep};

const PEER: &str = "10.0.0.1:18333";

fn running(should_run: bool) -> NodeState {
    NodeState { is_connected: true, should_run, mempool_requested: false, mempool_done: false }
}

fn only_send(step: &LoopStep) -> (String, Vec<u8>) {
    assert_eq!(step.actions.len(), 1);
    match &step.actions[0] {
        NodeAction::Send { command, payload } => (command.clone(), payload.clone()),
        _ => panic!("expected a message to send"),
    }
}

fn only_report(step: &LoopStep) -> (String, String, String) {
    assert_eq!(step.actions.len(), 1);
    match &step.actions[0] {
        NodeAction::Connection(e) => (e.status.clone(), e.message.clone(), e.peer_address.clone()),
        _ => panic!("expected a connection report"),
    }
}

#[test]
fn version_goes_out_first() {
    let opened = LoopEvent::Opened { receiver_ip: [10, 0, 0, 1], receiver_port: 18333, timestamp: 1_700_000_000 };
    let step = loop_step_with_nonce(&NodeState::new(), opened, 0x0123_4567_89AB_CDEF, PEER);
    assert!(!step.stop);
    let (command, payload) = only_send(&step);
    assert_eq!(command, "version");
    assert_eq!(payload.len(), 113);
    assert_eq!(&payload[0..4], &70015i32.to_le_bytes());
    assert_eq!(&payload[12..20], &1_700_000_000i64.to_le_bytes());
    assert_eq!(&payload[38..46], &[0xFF, 0xFF, 10, 0, 0, 1, 0x47, 0x9D]);
    assert_eq!(&payload[72..80], &0x0123_4567_89AB_CDEFu64.to_le_bytes());
}

#[test]
fn version_with_a_drawn_nonce_is_still_a_version() {
    let opened = LoopEvent::Opened { receiver_ip: [10, 0, 0, 1], receiver_port: 18333, timestamp: 5 };
    let (command, payload) = only_send(&loop_step(&NodeState::new(), opened, PEER));
    assert_eq!(command, "version");
    assert_eq!(payload.len(), 113);
}

#[test]
fn unsent_version_is_reported_and_ends_the_loop() {
    let step = loop_step_with_nonce(&running(true), LoopEvent::VersionNotSent { reason: "broken pipe".to_string() }, 0, PEER);
    assert!(step.stop);
    assert_eq!(
        only_report(&step),
        ("error".to_string(), "Failed to send version: broken pipe".to_string(), PEER.to_string())
    );
}

#[test]
fn loop_stops_only_when_asked() {
    let go_on = loop_step_with_nonce(&running(true), LoopEvent::ReadyToRead, 0, PEER);
    assert!(!go_on.stop);
    assert!(go_on.actions.is_empty());
    let stop = loop_step(&running(false), LoopEvent::ReadyToRead, PEER);
    assert!(stop.stop);
    assert!(stop.actions.is_empty());
}

#[test]
fn read_timeout_sends_a_keepalive_ping() {
    let step = loop_step_with_nonce(&running(true), LoopEvent::ReadTimedOut, 0x1122_3344_5566_7788, PEER);
    assert!(!step.stop);
    assert_eq!(only_send(&step), ("ping".to_string(), vec![0x88, 0x77, 0x66, 0x55, 0x44, 0x33, 0x22, 0x11]));
    let drawn = loop_step(&running(true), LoopEvent::ReadTimedOut, PEER);
    let (command, payload) = only_send(&drawn);
    assert_eq!((command.as_str(), payload.len()), ("ping", 8));
}

#[test]
fn other_read_failure_is_a_disconnection() {
    let step = loop_step(&running(true), LoopEvent::ReadFailed { reason: "connection reset".to_string() }, PEER);
    assert!(step.stop);
    assert_eq!(
        only_report(&step),
        ("disconnected".to_string(), "Disconnected: connection reset".to_string(), PEER.to_string())
    );
}

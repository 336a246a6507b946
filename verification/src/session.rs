//! Decisions of the node loop around the messages: what is sent first, when
//! the loop stops, and what a failed read leads to.

use vstd::prelude::*;
use crate::encoding::{le_bytes, push_le};
use crate::node::{
    ActionModel, ConnectionEvent, ConnectionModel, NodeAction, NodeState, actions_of, next_state,
};
use crate::version::{generate_nonce, version_payload_bytes, version_payload_with_nonce};

verus! {

/// What happens to the connection outside of a received message.
pub enum LoopEvent {
    /// The connection to the peer at `receiver_ip:receiver_port` is open, at
    /// Unix time `timestamp`.
    Opened { receiver_ip: [u8; 4], receiver_port: u16, timestamp: i64 },
    /// Our `version` message could not be written, for the reason given.
    VersionNotSent { reason: String },
    /// The loop is about to read the next message.
    ReadyToRead,
    /// A read waited too long with nothing to read.
    ReadTimedOut,
    /// A read failed for another reason, the one given.
    ReadFailed { reason: String },
}

/// What the loop does about an event: the actions to carry out, in order,
/// and whether it ends afterwards.
pub struct LoopStep {
    pub actions: Vec<NodeAction>,
    pub stop: bool,
}

/// A step as plain values.
pub struct LoopStepModel {
    pub actions: Seq<ActionModel>,
    pub stop: bool,
}

impl View for LoopStep {
    type V = LoopStepModel;

    open spec fn view(&self) -> LoopStepModel {
        LoopStepModel { actions: self.actions@.map_values(|a: NodeAction| a@), stop: self.stop }
    }
}

/// A connection report to the user interface.
pub open spec fn report(status: Seq<char>, message: Seq<char>, peer: Seq<char>) -> ActionModel {
    ActionModel::Connection(ConnectionModel { status, message, peer_address: peer })
}

/// What the loop does about `e` in state `s`, with `nonce` as the fresh
/// random number that a `version` or a keepalive `ping` carries:
/// - once the connection is open, our `version` goes out first;
/// - if it cannot be written, an error is reported and the loop ends;
/// - before each read, the loop ends if it has been asked to stop;
/// - a read that waited too long is answered by a `ping`, and the loop goes on;
/// - any other failed read is reported as a disconnection and ends the loop.
pub open spec fn step_of(s: NodeState, e: LoopEvent, nonce: u64, peer: Seq<char>) -> LoopStepModel {
    match e {
        LoopEvent::Opened { receiver_ip, receiver_port, timestamp } => LoopStepModel {
            actions: seq![
                ActionModel::Send(
                    "version"@,
                    version_payload_bytes(receiver_ip@, receiver_port, timestamp, nonce),
                ),
            ],
            stop: false,
        },
        LoopEvent::VersionNotSent { reason } => LoopStepModel {
            actions: seq![report("error"@, "Failed to send version: "@ + reason@, peer)],
            stop: true,
        },
        LoopEvent::ReadyToRead => LoopStepModel { actions: seq![], stop: !s.should_run },
        LoopEvent::ReadTimedOut => LoopStepModel {
            actions: seq![ActionModel::Send("ping"@, le_bytes(nonce as nat, 8))],
            stop: false,
        },
        LoopEvent::ReadFailed { reason } => LoopStepModel {
            actions: seq![report("disconnected"@, "Disconnected: "@ + reason@, peer)],
            stop: true,
        },
    }
}

/// Whether an event's action carries a fresh random number.
pub open spec fn draws_nonce(e: LoopEvent) -> bool {
    e is Opened || e is ReadTimedOut
}

fn one_step(a: NodeAction, stop: bool) -> (r: LoopStep)
    ensures
        r@.actions == seq![a@],
        r.stop == stop,
{
    let mut actions: Vec<NodeAction> = Vec::new();
    actions.push(a);
    let r = LoopStep { actions, stop };
    assert(r@.actions =~= seq![a@]);
    r
}

fn reason_line(before: &str, reason: &String) -> (s: String)
    ensures
        s@ == before@ + reason@,
{
    let mut s = before.to_owned();
    s.append(reason.as_str());
    s
}

/// Decides what the loop does about `event`, given the random number `nonce`
/// for the messages that carry one.
pub fn loop_step_with_nonce(state: &NodeState, event: LoopEvent, nonce: u64, peer_addr: &str) -> (r: LoopStep)
    ensures
        r@ == step_of(*state, event, nonce, peer_addr@),
{
    match event {
        LoopEvent::Opened { receiver_ip, receiver_port, timestamp } => {
            let payload = version_payload_with_nonce(receiver_ip, receiver_port, timestamp, nonce);
            one_step(NodeAction::Send { command: "version".to_owned(), payload }, false)
        },
        LoopEvent::VersionNotSent { reason } => {
            let message = reason_line("Failed to send version: ", &reason);
            let e = ConnectionEvent { status: "error".to_owned(), message, peer_address: peer_addr.to_owned() };
            one_step(NodeAction::Connection(e), true)
        },
        LoopEvent::ReadyToRead => {
            let actions: Vec<NodeAction> = Vec::new();
            let r = LoopStep { actions, stop: !state.should_run };
            assert(r@.actions =~= Seq::<ActionModel>::empty());
            r
        },
        LoopEvent::ReadTimedOut => {
            let mut payload: Vec<u8> = Vec::new();
            push_le(&mut payload, nonce, 8);
            assert(payload@ =~= le_bytes(nonce as nat, 8));
            one_step(NodeAction::Send { command: "ping".to_owned(), payload }, false)
        },
        LoopEvent::ReadFailed { reason } => {
            let message = reason_line("Disconnected: ", &reason);
            let e = ConnectionEvent {
                status: "disconnected".to_owned(),
                message,
                peer_address: peer_addr.to_owned(),
            };
            one_step(NodeAction::Connection(e), true)
        },
    }
}

/// Decides what the loop does about `event`, drawing a fresh random number
/// for the `version` or `ping` that carries one. Whatever number is drawn,
/// the step is the one `step_of` gives for it.
pub fn loop_step(state: &NodeState, event: LoopEvent, peer_addr: &str) -> (r: LoopStep)
    ensures
        exists|nonce: u64| r@ == step_of(*state, event, nonce, peer_addr@),
{
    let nonce: u64 = if matches!(event, LoopEvent::Opened { .. } | LoopEvent::ReadTimedOut) {
        generate_nonce()
    } else {
        0
    };
    loop_step_with_nonce(state, event, nonce, peer_addr)
}

/// The handshake, from our side: once the connection is open the first
/// message we send is our `version`; a `version` from the peer is answered
/// first of all by a `verack`; a `verack` from the peer marks the node
/// connected, reports the handshake complete and asks for addresses.
pub proof fn lemma_handshake(
    s: NodeState,
    receiver_ip: [u8; 4],
    receiver_port: u16,
    timestamp: i64,
    nonce: u64,
    their_version: Seq<u8>,
    their_verack: Seq<u8>,
    peer: Seq<char>,
)
    ensures
        step_of(s, LoopEvent::Opened { receiver_ip, receiver_port, timestamp }, nonce, peer).actions[0]
            == ActionModel::Send("version"@, version_payload_bytes(receiver_ip@, receiver_port, timestamp, nonce)),
        actions_of(s, "version"@, their_version, peer)[0] == ActionModel::Send("verack"@, seq![]),
        next_state(s, "verack"@).is_connected,
        actions_of(s, "verack"@, their_verack, peer) == seq![
            report("handshake_complete"@, "Version handshake complete — receiving network data"@, peer),
            ActionModel::Send("getaddr"@, seq![]),
        ],
{
    reveal_strlit("version");
    reveal_strlit("verack");
    assert("verack"@.len() == 6 && "version"@.len() == 7);
}

} // verus!

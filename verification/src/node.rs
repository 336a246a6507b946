//! Decisions of the node loop: what each received message means, what to
//! answer, what to report to the user interface, and the connection state.

use vstd::prelude::*;
use crate::crypto::{double_sha256, double_sha256_of};
use crate::encoding::{decode_varint, varint_decode, le_value, read_le, copy_range};
use crate::text::{
    decimal, hex_lower, hex_upper_fixed, push_decimal, push_hex_upper, utf8_lossy,
    from_utf8_lossy, lemma_hex_lower_prefix,
};
use crate::crypto::hex_encode;
use crate::transaction::{Transaction, TxInput, InputModel, OutputModel};

verus! {

// ── Events reported to the user interface ────────────────────────────────────

/// Connection progress.
pub struct ConnectionEvent {
    pub status: String,
    pub message: String,
    pub peer_address: String,
}

/// One line of the live message log.
pub struct MessageEvent {
    pub command: String,
    pub summary: String,
    pub timestamp: u64,
    pub message_number: u64,
}

/// What the peer told about itself in its `version` message.
pub struct PeerInfoEvent {
    pub protocol_version: i32,
    pub user_agent: String,
    pub start_height: i32,
    pub services: String,
}

/// A decoded transaction.
pub struct TransactionEvent {
    pub txid: String,
    pub fetched_from: String,
    pub version: i32,
    pub is_segwit: bool,
    pub input_count: usize,
    pub output_count: usize,
    pub total_output_sats: u64,
    pub outputs: Vec<String>,
    pub inputs: Vec<String>,
    pub locktime: String,
}

/// The transactions of the peer's mempool.
pub struct MempoolEvent {
    pub total_count: u64,
    pub txids: Vec<String>,
}

/// One announced inventory item.
pub struct InvItem {
    /// "TX", "BLOCK" or "OTHER".
    pub item_type: String,
    pub hash: String,
}

/// A batch of announced inventory items.
pub struct InvAnnouncement {
    pub items: Vec<InvItem>,
    pub timestamp: u64,
}

// ── Connection state ─────────────────────────────────────────────────────────

/// The flags shared between the user's commands and the node loop.
#[derive(Clone, Copy)]
pub struct NodeState {
    pub is_connected: bool,
    pub should_run: bool,
    pub mempool_requested: bool,
    pub mempool_done: bool,
}

impl NodeState {
    /// A node that has not been asked to run.
    pub fn new() -> (s: Self)
        ensures
            !s.is_connected,
            !s.should_run,
            !s.mempool_requested,
            !s.mempool_done,
    {
        NodeState { is_connected: false, should_run: false, mempool_requested: false, mempool_done: false }
    }
}

// ── Byte order and short hashes ──────────────────────────────────────────────

/// A byte string in reverse order.
pub open spec fn reversed(s: Seq<u8>) -> Seq<u8> {
    Seq::new(s.len(), |i: int| s[s.len() - 1 - i])
}

/// Reverses a byte slice (internal order to display order and back).
pub fn reverse_bytes(s: &[u8]) -> (r: Vec<u8>)
    ensures
        r@ == reversed(s@),
{
    let n = s.len();
    let mut r: Vec<u8> = Vec::with_capacity(n);
    let mut i: usize = 0;
    while i < n
        invariant
            i <= n,
            n == s@.len(),
            r@ == reversed(s@).take(i as int),
        decreases n - i,
    {
        r.push(s[n - 1 - i]);
        i = i + 1;
        assert(r@ =~= reversed(s@).take(i as int));
    }
    assert(r@ =~= reversed(s@));
    r
}

/// The first 16 hexadecimal digits of a hash shown in display order.
pub open spec fn short_hex(display: Seq<u8>) -> Seq<char> {
    hex_lower(display).take(16)
}

/// Renders the first 16 hexadecimal digits of `display`.
pub fn short_hex_of(display: &[u8]) -> (s: String)
    requires
        display@.len() >= 8,
    ensures
        s@ == short_hex(display@),
{
    let head = copy_range(display, 0, 8);
    proof {
        assert(display@.subrange(0, 8) =~= display@.take(8));
        lemma_hex_lower_prefix(display@, 8);
    }
    hex_encode(head.as_slice())
}

// ── Scripts, inputs, locktime ────────────────────────────────────────────────

/// The kind of an output script, by its standard template.
pub open spec fn script_class(s: Seq<u8>) -> Seq<char> {
    if s.len() == 25 && s[0] == 0x76 && s[1] == 0xa9 {
        "P2PKH"@
    } else if s.len() == 23 && s[0] == 0xa9 && s[22] == 0x87 {
        "P2SH"@
    } else if s.len() == 22 && s[0] == 0x00 && s[1] == 0x14 {
        "P2WPKH"@
    } else if s.len() == 34 && s[0] == 0x00 && s[1] == 0x20 {
        "P2WSH"@
    } else if s.len() > 0 && s[0] == 0x6a {
        "OP_RETURN"@
    } else {
        "UNKNOWN"@
    }
}

/// Names the standard template of an output script.
pub fn classify_script_simple(script: &[u8]) -> (s: String)
    ensures
        s@ == script_class(script@),
{
    let n = script.len();
    if n == 25 && script[0] == 0x76 && script[1] == 0xa9 {
        "P2PKH".to_owned()
    } else if n == 23 && script[0] == 0xa9 && script[22] == 0x87 {
        "P2SH".to_owned()
    } else if n == 22 && script[0] == 0x00 && script[1] == 0x14 {
        "P2WPKH".to_owned()
    } else if n == 34 && script[0] == 0x00 && script[1] == 0x20 {
        "P2WSH".to_owned()
    } else if n > 0 && script[0] == 0x6a {
        "OP_RETURN".to_owned()
    } else {
        "UNKNOWN".to_owned()
    }
}

/// Each name is given to exactly the scripts of its template: 25 bytes
/// starting `OP_DUP OP_HASH160` for P2PKH; 23 bytes from `OP_HASH160` to
/// `OP_EQUAL` for P2SH; a version-0 witness program of 20 bytes (22 in all)
/// for P2WPKH and of 32 bytes (34 in all) for P2WSH; a script starting with
/// `OP_RETURN`; and "UNKNOWN" for every other script, a Taproot output
/// (`OP_1`, 32 bytes) among them.
pub proof fn lemma_script_templates(s: Seq<u8>)
    ensures
        script_class(s) == "P2PKH"@ <==> (s.len() == 25 && s[0] == 0x76 && s[1] == 0xa9),
        script_class(s) == "P2SH"@ <==> (s.len() == 23 && s[0] == 0xa9 && s[22] == 0x87),
        script_class(s) == "P2WPKH"@ <==> (s.len() == 22 && s[0] == 0x00 && s[1] == 0x14),
        script_class(s) == "P2WSH"@ <==> (s.len() == 34 && s[0] == 0x00 && s[1] == 0x20),
        script_class(s) == "OP_RETURN"@ <==> (s.len() > 0 && s[0] == 0x6a),
        script_class(s) == "UNKNOWN"@ <==> !((s.len() == 25 && s[0] == 0x76 && s[1] == 0xa9) || (s.len() == 23
            && s[0] == 0xa9 && s[22] == 0x87) || (s.len() == 22 && s[0] == 0x00 && s[1] == 0x14) || (s.len()
            == 34 && s[0] == 0x00 && s[1] == 0x20) || (s.len() > 0 && s[0] == 0x6a)),
        s.len() == 34 && s[0] == 0x51 && s[1] == 0x20 ==> script_class(s) == "UNKNOWN"@,
{
    reveal_strlit("P2PKH");
    reveal_strlit("P2SH");
    reveal_strlit("P2WPKH");
    reveal_strlit("P2WSH");
    reveal_strlit("OP_RETURN");
    reveal_strlit("UNKNOWN");
    assert("P2PKH"@.len() == 5 && "P2SH"@.len() == 4 && "P2WPKH"@.len() == 6 && "P2WSH"@.len() == 5
        && "OP_RETURN"@.len() == 9 && "UNKNOWN"@.len() == 7);
    assert("P2PKH"@[2] == 'P' && "P2WSH"@[2] == 'W');
}

/// What a locktime restricts: nothing, a block height, or a Unix time.
pub open spec fn locktime_text(n: u32) -> Seq<char> {
    if n == 0 {
        "0 (no restriction)"@
    } else if n < 500_000_000 {
        "block "@ + decimal(n as nat)
    } else {
        "unix "@ + decimal(n as nat)
    }
}

/// Describes what a locktime restricts.
pub fn describe_locktime(n: u32) -> (s: String)
    ensures
        s@ == locktime_text(n),
{
    if n == 0 {
        "0 (no restriction)".to_owned()
    } else if n < 500_000_000 {
        let mut s = "block ".to_owned();
        push_decimal(&mut s, n as u64);
        s
    } else {
        let mut s = "unix ".to_owned();
        push_decimal(&mut s, n as u64);
        s
    }
}

/// Whether an input spends nothing: the coinbase outpoint.
pub open spec fn is_coinbase(i: InputModel) -> bool {
    i.prev_txid == Seq::new(32, |k: int| 0u8) && i.prev_index == 0xFFFF_FFFF
}

/// The description of one input.
pub open spec fn input_text(i: InputModel) -> Seq<char> {
    if is_coinbase(i) {
        "COINBASE (block reward)"@
    } else {
        "Spends "@ + short_hex(reversed(i.prev_txid)) + "...  output #"@ + decimal(i.prev_index as nat)
    }
}

/// Describes the outpoint an input spends.
pub fn describe_input(input: &TxInput) -> (s: String)
    ensures
        s@ == input_text(input@),
{
    let mut zero = true;
    let mut k: usize = 0;
    while k < 32
        invariant
            k <= 32,
            zero <==> forall|j: int| 0 <= j < k ==> input.prev_txid@[j] == 0u8,
        decreases 32 - k,
    {
        if input.prev_txid[k] != 0 {
            zero = false;
        }
        k = k + 1;
    }
    if zero && input.prev_index == 0xFFFF_FFFF {
        assert(input.prev_txid@ =~= Seq::new(32, |k: int| 0u8));
        "COINBASE (block reward)".to_owned()
    } else {
        assert(!is_coinbase(input@)) by {
            if !zero {
                let j = choose|j: int| 0 <= j < 32 && input.prev_txid@[j] != 0u8;
                assert(Seq::new(32, |k: int| 0u8)[j] == 0u8);
            }
        }
        let display = reverse_bytes(input.prev_txid.as_slice());
        let mut s = "Spends ".to_owned();
        let h = short_hex_of(display.as_slice());
        s.append(h.as_str());
        s.append("...  output #");
        push_decimal(&mut s, input.prev_index as u64);
        s
    }
}

} // verus!

verus! {

// ── The peer's version, for the peer panel ───────────────────────────────────

/// The peer panel's fields as plain values.
pub struct PeerInfoModel {
    pub protocol_version: i32,
    pub user_agent: Seq<char>,
    pub start_height: i32,
    pub services: Seq<char>,
}

impl View for PeerInfoEvent {
    type V = PeerInfoModel;

    open spec fn view(&self) -> PeerInfoModel {
        PeerInfoModel {
            protocol_version: self.protocol_version,
            user_agent: self.user_agent@,
            start_height: self.start_height,
            services: self.services@,
        }
    }
}

/// The peer panel's fields read from a `version` payload of at least 81
/// bytes. A user agent running past the end is cut at the end, and a missing
/// start height reads as 0.
pub open spec fn peer_info_of(p: Seq<u8>) -> Option<PeerInfoModel> {
    if p.len() < 81 {
        None
    } else {
        match varint_decode(p, 80) {
            Err(_) => None,
            Ok((ua_len, used)) => {
                let start = 80 + used;
                let end = if start + (ua_len as usize) > p.len() {
                    p.len() as int
                } else {
                    start + (ua_len as usize)
                };
                Some(
                    PeerInfoModel {
                        protocol_version: crate::version::le_i32(p.subrange(0, 4)),
                        user_agent: utf8_lossy(p.subrange(start, end)),
                        start_height: if end + 4 <= p.len() {
                            crate::version::le_i32(p.subrange(end, end + 4))
                        } else {
                            0i32
                        },
                        services: "0x"@ + hex_upper_fixed(le_value(p.subrange(4, 12)), 16),
                    },
                )
            },
        }
    }
}

/// Reads the peer panel's fields from a `version` payload.
pub fn parse_version_for_event(payload: &[u8]) -> (r: Result<PeerInfoEvent, ()>)
    ensures
        match r {
            Ok(info) => peer_info_of(payload@) == Some(info@),
            Err(_) => peer_info_of(payload@) is None,
        },
{
    let len = payload.len();
    if len < 81 {
        return Err(());
    }
    let version = (#[verifier::truncate] (read_le(payload, 0, 4) as u32)) as i32;
    let services = read_le(payload, 4, 8);
    // Skip timestamp, both addresses and the nonce.
    let (ua_len, used) = match decode_varint(payload, 80) {
        Ok(x) => x,
        Err(_) => {
            return Err(());
        },
    };
    let start = 80 + used;
    let ua_len = #[verifier::truncate] (ua_len as usize);
    let end = if ua_len > len - start {
        len
    } else {
        start + ua_len
    };
    let ua_bytes = copy_range(payload, start, end);
    let user_agent = from_utf8_lossy(ua_bytes.as_slice());
    let start_height = if len - end >= 4 {
        (#[verifier::truncate] (read_le(payload, end, 4) as u32)) as i32
    } else {
        0
    };
    let mut services_text = "0x".to_owned();
    push_hex_upper(&mut services_text, services, 16);
    Ok(PeerInfoEvent { protocol_version: version, user_agent, start_height, services: services_text })
}

} // verus!

verus! {

// ── Decoded transactions ─────────────────────────────────────────────────────

/// A transaction report as plain values.
pub struct TxEventModel {
    pub txid: Seq<char>,
    pub fetched_from: Seq<char>,
    pub version: i32,
    pub is_segwit: bool,
    pub input_count: usize,
    pub output_count: usize,
    pub total_output_sats: u64,
    pub outputs: Seq<Seq<char>>,
    pub inputs: Seq<Seq<char>>,
    pub locktime: Seq<char>,
}

impl View for TransactionEvent {
    type V = TxEventModel;

    open spec fn view(&self) -> TxEventModel {
        TxEventModel {
            txid: self.txid@,
            fetched_from: self.fetched_from@,
            version: self.version,
            is_segwit: self.is_segwit,
            input_count: self.input_count,
            output_count: self.output_count,
            total_output_sats: self.total_output_sats,
            outputs: self.outputs@.map_values(|s: String| s@),
            inputs: self.inputs@.map_values(|s: String| s@),
            locktime: self.locktime@,
        }
    }
}

/// The sum of the output values.
pub open spec fn total_value(outs: Seq<OutputModel>) -> nat
    decreases outs.len(),
{
    if outs.len() == 0 {
        0
    } else {
        total_value(outs.drop_last()) + outs.last().value as nat
    }
}

proof fn lemma_total_value_prefix(outs: Seq<OutputModel>, k: int)
    requires
        0 <= k <= outs.len(),
    ensures
        total_value(outs.take(k)) <= total_value(outs),
    decreases outs.len(),
{
    if k < outs.len() {
        lemma_total_value_prefix(outs.drop_last(), k);
        assert(outs.drop_last().take(k) =~= outs.take(k));
    } else {
        assert(outs.take(k) =~= outs);
    }
}

/// Whether the output values of a `tx` payload add up without overflowing
/// 64 bits (payloads that are not transactions are not summed).
pub open spec fn tx_total_fits(p: Seq<u8>) -> bool {
    match crate::transaction::tx_decode(p) {
        Ok(tx) => total_value(tx.outputs) <= u64::MAX,
        Err(_) => true,
    }
}

/// The report for a decoded transaction with display-order txid `txid`,
/// received from `peer`. Each output is named by its script kind.
pub open spec fn tx_event_of(tx: crate::transaction::TxModel, txid: Seq<char>, peer: Seq<char>) -> TxEventModel {
    TxEventModel {
        txid: txid,
        fetched_from: peer,
        version: tx.version,
        is_segwit: tx.is_segwit,
        input_count: tx.inputs.len() as usize,
        output_count: tx.outputs.len() as usize,
        total_output_sats: total_value(tx.outputs) as u64,
        outputs: Seq::new(tx.outputs.len(), |i: int| script_class(tx.outputs[i].script_pubkey)),
        inputs: Seq::new(tx.inputs.len(), |i: int| input_text(tx.inputs[i])),
        locktime: locktime_text(tx.locktime),
    }
}

/// The output values of a transaction, in order.
pub open spec fn output_values(tx: crate::transaction::TxModel) -> Seq<u64> {
    Seq::new(tx.outputs.len(), |i: int| tx.outputs[i].value)
}

/// Adds up the output values of a transaction, when they fit in 64 bits.
pub fn checked_total_output(tx: &Transaction) -> (r: Option<u64>)
    ensures
        r matches Some(t) ==> t == total_value(tx@.outputs),
        r is None <==> total_value(tx@.outputs) > u64::MAX,
{
    let n = tx.outputs.len();
    let mut total: u64 = 0;
    let mut i: usize = 0;
    while i < n
        invariant
            i <= n,
            n == tx@.outputs.len(),
            total == total_value(tx@.outputs.take(i as int)),
        decreases n - i,
    {
        assert(tx@.outputs.take(i + 1).drop_last() =~= tx@.outputs.take(i as int));
        assert(tx@.outputs[i as int] == tx.outputs@[i as int]@);
        let v = tx.outputs[i].value;
        if v > u64::MAX - total {
            proof {
                lemma_total_value_prefix(tx@.outputs, i + 1);
            }
            return None;
        }
        total = total + v;
        i = i + 1;
    }
    assert(tx@.outputs.take(n as int) =~= tx@.outputs);
    Some(total)
}

/// Whether the output values of a `tx` payload add up within 64 bits.
pub fn tx_outputs_fit(payload: &[u8]) -> (b: bool)
    ensures
        b == tx_total_fits(payload@),
{
    match crate::transaction::parse_transaction(payload) {
        Ok(tx) => checked_total_output(&tx).is_some(),
        Err(_) => true,
    }
}

/// Builds the report for a decoded transaction, and the output values.
pub fn transaction_event(tx: &Transaction, txid: String, fetched_from: String) -> (r: (TransactionEvent, Vec<u64>))
    requires
        total_value(tx@.outputs) <= u64::MAX,
    ensures
        r.0@ == tx_event_of(tx@, txid@, fetched_from@),
        r.1@ == output_values(tx@),
{
    let n_in = tx.inputs.len();
    let mut inputs: Vec<String> = Vec::new();
    let mut i: usize = 0;
    while i < n_in
        invariant
            i <= n_in,
            n_in == tx@.inputs.len(),
            inputs@.map_values(|s: String| s@) == Seq::new(i as nat, |j: int| input_text(tx@.inputs[j])),
        decreases n_in - i,
    {
        let ghost before = inputs@;
        let text = describe_input(&tx.inputs[i]);
        inputs.push(text);
        assert(inputs@.map_values(|s: String| s@) =~= before.map_values(|s: String| s@).push(text@));
        assert(inputs@.map_values(|s: String| s@) =~= Seq::new((i + 1) as nat, |j: int| input_text(tx@.inputs[j])));
        i = i + 1;
    }
    let n_out = tx.outputs.len();
    let mut outputs: Vec<String> = Vec::new();
    let mut values: Vec<u64> = Vec::new();
    let mut k: usize = 0;
    while k < n_out
        invariant
            k <= n_out,
            n_out == tx@.outputs.len(),
            outputs@.map_values(|s: String| s@) == Seq::new(k as nat, |j: int| script_class(tx@.outputs[j].script_pubkey)),
            values@ == Seq::new(k as nat, |j: int| tx@.outputs[j].value),
        decreases n_out - k,
    {
        let ghost before = outputs@;
        let text = classify_script_simple(tx.outputs[k].script_pubkey.as_slice());
        outputs.push(text);
        values.push(tx.outputs[k].value);
        assert(outputs@.map_values(|s: String| s@) =~= before.map_values(|s: String| s@).push(text@));
        assert(outputs@.map_values(|s: String| s@) =~= Seq::new((k + 1) as nat, |j: int| script_class(tx@.outputs[j].script_pubkey)));
        assert(values@ =~= Seq::new((k + 1) as nat, |j: int| tx@.outputs[j].value));
        k = k + 1;
    }
    let total = match checked_total_output(tx) {
        Some(t) => t,
        None => 0,
    };
    let locktime = describe_locktime(tx.locktime);
    let event = TransactionEvent {
        txid,
        fetched_from,
        version: tx.version,
        is_segwit: tx.is_segwit,
        input_count: n_in,
        output_count: n_out,
        total_output_sats: total,
        outputs,
        inputs,
        locktime,
    };
    (event, values)
}

} // verus!

verus! {

// ── Handling one received message ────────────────────────────────────────────

/// Connection progress as plain values.
pub struct ConnectionModel {
    pub status: Seq<char>,
    pub message: Seq<char>,
    pub peer_address: Seq<char>,
}

impl View for ConnectionEvent {
    type V = ConnectionModel;

    open spec fn view(&self) -> ConnectionModel {
        ConnectionModel { status: self.status@, message: self.message@, peer_address: self.peer_address@ }
    }
}

/// What the node loop does in answer to a message, besides logging it.
pub enum NodeAction {
    /// Send a message to the peer.
    Send { command: String, payload: Vec<u8> },
    /// Report connection progress.
    Connection(ConnectionEvent),
    /// Report the peer's details.
    PeerInfo(PeerInfoEvent),
    /// Report a mempool snapshot.
    Mempool(MempoolEvent),
    /// Report announced inventory; the caller stamps it with the time.
    Announcement(Vec<InvItem>),
    /// Report a decoded transaction. Its `outputs` name each output's script
    /// kind; the values, in satoshis, come alongside for the caller to show
    /// in BTC next to each kind.
    Transaction(TransactionEvent, Vec<u64>),
    /// Report that the peer does not have what was requested.
    NotFound,
}

/// An action as plain values.
pub enum ActionModel {
    Send(Seq<char>, Seq<u8>),
    Connection(ConnectionModel),
    PeerInfo(PeerInfoModel),
    Mempool(crate::inventory::MempoolModel),
    Announcement(Seq<crate::inventory::InvItemModel>),
    Transaction(TxEventModel, Seq<u64>),
    NotFound,
}

impl View for NodeAction {
    type V = ActionModel;

    open spec fn view(&self) -> ActionModel {
        match self {
            NodeAction::Send { command, payload } => ActionModel::Send(command@, payload@),
            NodeAction::Connection(e) => ActionModel::Connection(e@),
            NodeAction::PeerInfo(e) => ActionModel::PeerInfo(e@),
            NodeAction::Mempool(e) => ActionModel::Mempool(e@),
            NodeAction::Announcement(items) => ActionModel::Announcement(
                items@.map_values(|i: crate::node::InvItem| i@),
            ),
            NodeAction::Transaction(e, values) => ActionModel::Transaction(e@, values@),
            NodeAction::NotFound => ActionModel::NotFound,
        }
    }
}

/// The log line for a message and what to do about it.
pub struct MessageOutcome {
    pub summary: String,
    pub actions: Vec<NodeAction>,
}

/// An outcome as plain values.
pub struct OutcomeModel {
    pub summary: Seq<char>,
    pub actions: Seq<ActionModel>,
}

impl View for MessageOutcome {
    type V = OutcomeModel;

    open spec fn view(&self) -> OutcomeModel {
        OutcomeModel { summary: self.summary@, actions: self.actions@.map_values(|a: NodeAction| a@) }
    }
}

/// The count a payload starts with, or 0 when it cannot be read.
pub open spec fn leading_count(p: Seq<u8>) -> u64 {
    match varint_decode(p, 0) {
        Ok((c, _)) => c,
        Err(_) => 0,
    }
}

/// The eight-byte nonce at the start of a ping or pong, as 16 hex digits.
pub open spec fn nonce_text(p: Seq<u8>) -> Seq<char> {
    hex_upper_fixed(le_value(p.take(8)), 16)
}

/// Whether the node is waiting for the answer to its `mempool` request.
pub open spec fn awaiting_mempool(s: NodeState) -> bool {
    s.mempool_requested && !s.mempool_done
}

/// The connection state after a message.
pub open spec fn next_state(s: NodeState, c: Seq<char>) -> NodeState {
    if c == "verack"@ {
        NodeState { is_connected: true, ..s }
    } else if c == "inv"@ && awaiting_mempool(s) {
        NodeState { mempool_done: true, ..s }
    } else {
        s
    }
}

/// The log line for a message.
pub open spec fn summary_of(s: NodeState, c: Seq<char>, p: Seq<u8>) -> Seq<char> {
    if c == "version"@ {
        "Sent verack. "@ + match crate::version::version_summary(p) {
            Ok(t) => t,
            Err(_) => "parse error"@,
        }
    } else if c == "verack"@ {
        "Handshake complete"@
    } else if c == "ping"@ {
        if p.len() >= 8 {
            "nonce="@ + nonce_text(p) + " → sent pong"@
        } else {
            "malformed ping"@
        }
    } else if c == "pong"@ {
        if p.len() >= 8 {
            "nonce="@ + nonce_text(p)
        } else {
            "received"@
        }
    } else if c == "inv"@ {
        if awaiting_mempool(s) {
            crate::inventory::mempool_text(p)
        } else {
            crate::inventory::announcement_text(p)
        }
    } else if c == "tx"@ {
        "txid="@ + short_hex(reversed(double_sha256_of(p))) + "..."@
    } else if c == "addr"@ {
        decimal(leading_count(p) as nat) + " peer addresses"@
    } else if c == "headers"@ {
        decimal(leading_count(p) as nat) + " block headers"@
    } else if c == "block"@ {
        if p.len() >= 80 {
            "hash="@ + short_hex(reversed(double_sha256_of(p.take(80)))) + "..."@
        } else {
            "truncated"@
        }
    } else if c == "feefilter"@ {
        if p.len() >= 8 {
            decimal(le_value(p.take(8))) + " sat/kB minimum"@
        } else {
            "received"@
        }
    } else if c == "sendheaders"@ {
        "peer prefers header announcements"@
    } else if c == "sendcmpct"@ {
        "peer supports compact blocks"@
    } else if c == "getheaders"@ {
        "ignoring (no headers to serve)"@
    } else if c == "getdata"@ {
        "ignoring (no data to serve)"@
    } else if c == "reject"@ {
        decimal(p.len()) + " bytes"@
    } else if c == "notfound"@ {
        "peer does not have "@ + decimal(leading_count(p) as nat) + " requested item(s)"@
    } else {
        "("@ + decimal(p.len()) + " bytes payload)"@
    }
}

/// What to do about a message from `peer`, in order.
pub open spec fn actions_of(s: NodeState, c: Seq<char>, p: Seq<u8>, peer: Seq<char>) -> Seq<ActionModel> {
    if c == "version"@ {
        seq![ActionModel::Send("verack"@, seq![])] + match peer_info_of(p) {
            Some(info) => seq![ActionModel::PeerInfo(info)],
            None => seq![],
        }
    } else if c == "verack"@ {
        seq![
            ActionModel::Connection(
                ConnectionModel {
                    status: "handshake_complete"@,
                    message: "Version handshake complete — receiving network data"@,
                    peer_address: peer,
                },
            ),
            ActionModel::Send("getaddr"@, seq![]),
        ]
    } else if c == "ping"@ {
        if p.len() >= 8 {
            seq![ActionModel::Send("pong"@, p.take(8))]
        } else {
            seq![]
        }
    } else if c == "inv"@ {
        if awaiting_mempool(s) {
            seq![ActionModel::Mempool(crate::inventory::mempool_of(p))]
        } else {
            seq![ActionModel::Announcement(crate::inventory::announced_items(p))]
        }
    } else if c == "tx"@ {
        match crate::transaction::tx_decode(p) {
            Ok(tx) => seq![
                ActionModel::Transaction(
                    tx_event_of(tx, hex_lower(reversed(double_sha256_of(p))), peer),
                    output_values(tx),
                ),
            ],
            Err(_) => seq![],
        }
    } else if c == "notfound"@ {
        seq![ActionModel::NotFound]
    } else {
        seq![]
    }
}

/// Whether `c` is the command `name`.
fn is_command(c: &String, name: &str) -> (b: bool)
    ensures
        b == (c@ == name@),
{
    *c == name.to_owned()
}

/// The count a payload starts with, or 0 when it cannot be read.
fn read_leading_count(payload: &[u8]) -> (c: u64)
    ensures
        c == leading_count(payload@),
{
    match decode_varint(payload, 0) {
        Ok((c, _)) => c,
        Err(_) => 0,
    }
}

/// A summary made of a number between two fixed texts.
fn number_line(before: &str, n: u64, after: &str) -> (s: String)
    ensures
        s@ == before@ + decimal(n as nat) + after@,
{
    let mut s = before.to_owned();
    push_decimal(&mut s, n);
    s.append(after);
    s
}

fn single(a: NodeAction) -> (v: Vec<NodeAction>)
    ensures
        v@ == seq![a],
{
    let mut v: Vec<NodeAction> = Vec::new();
    v.push(a);
    v
}

} // verus!

verus! {

fn on_version(payload: &[u8]) -> (out: MessageOutcome)
    ensures
        out@.summary == "Sent verack. "@ + match crate::version::version_summary(payload@) {
            Ok(t) => t,
            Err(_) => "parse error"@,
        },
        out@.actions == seq![ActionModel::Send("verack"@, seq![])] + match peer_info_of(payload@) {
            Some(info) => seq![ActionModel::PeerInfo(info)],
            None => seq![],
        },
{
    let mut actions: Vec<NodeAction> = Vec::new();
    let verack = NodeAction::Send { command: "verack".to_owned(), payload: Vec::new() };
    actions.push(verack);
    let info_text = match crate::version::decode_version_payload(payload) {
        Ok(t) => t,
        Err(_) => "parse error".to_owned(),
    };
    let ghost first = actions@;
    match parse_version_for_event(payload) {
        Ok(info) => {
            let a = NodeAction::PeerInfo(info);
            actions.push(a);
            assert(actions@.map_values(|a: NodeAction| a@) =~= first.map_values(|a: NodeAction| a@).push(a@));
        },
        Err(_) => {},
    }
    let mut summary = "Sent verack. ".to_owned();
    summary.append(info_text.as_str());
    let out = MessageOutcome { summary, actions };
    assert(out@.actions =~= seq![ActionModel::Send("verack"@, seq![])] + match peer_info_of(payload@) {
        Some(info) => seq![ActionModel::PeerInfo(info)],
        None => seq![],
    });
    out
}

fn on_verack(peer_addr: &str) -> (out: MessageOutcome)
    ensures
        out@.summary == "Handshake complete"@,
        out@.actions == seq![
            ActionModel::Connection(
                ConnectionModel {
                    status: "handshake_complete"@,
                    message: "Version handshake complete — receiving network data"@,
                    peer_address: peer_addr@,
                },
            ),
            ActionModel::Send("getaddr"@, seq![]),
        ],
{
    let mut actions: Vec<NodeAction> = Vec::new();
    actions.push(NodeAction::Connection(ConnectionEvent {
        status: "handshake_complete".to_owned(),
        message: "Version handshake complete — receiving network data".to_owned(),
        peer_address: peer_addr.to_owned(),
    }));
    actions.push(NodeAction::Send { command: "getaddr".to_owned(), payload: Vec::new() });
    let out = MessageOutcome { summary: "Handshake complete".to_owned(), actions };
    assert(out@.actions =~= seq![
        ActionModel::Connection(
            ConnectionModel {
                status: "handshake_complete"@,
                message: "Version handshake complete — receiving network data"@,
                peer_address: peer_addr@,
            },
        ),
        ActionModel::Send("getaddr"@, seq![]),
    ]);
    out
}

fn on_ping(payload: &[u8], answer: bool) -> (out: MessageOutcome)
    ensures
        out@.summary == (if payload@.len() >= 8 {
            "nonce="@ + nonce_text(payload@) + if answer { " → sent pong"@ } else { seq![] }
        } else if answer {
            "malformed ping"@
        } else {
            "received"@
        }),
        out@.actions == (if payload@.len() >= 8 && answer {
            seq![ActionModel::Send("pong"@, payload@.take(8))]
        } else {
            seq![]
        }),
{
    let mut actions: Vec<NodeAction> = Vec::new();
    if payload.len() >= 8 {
        let nonce = read_le(payload, 0, 8);
        assert(payload@.subrange(0, 8) =~= payload@.take(8));
        let mut summary = "nonce=".to_owned();
        push_hex_upper(&mut summary, nonce, 16);
        if answer {
            summary.append(" → sent pong");
            let pong = copy_range(payload, 0, 8);
            actions.push(NodeAction::Send { command: "pong".to_owned(), payload: pong });
        }
        let out = MessageOutcome { summary, actions };
        assert(out@.actions =~= (if answer { seq![ActionModel::Send("pong"@, payload@.take(8))] } else { seq![] }));
        assert(out@.summary =~= "nonce="@ + nonce_text(payload@) + if answer { " → sent pong"@ } else { seq![] });
        out
    } else {
        let summary = if answer { "malformed ping".to_owned() } else { "received".to_owned() };
        let out = MessageOutcome { summary, actions };
        assert(out@.actions =~= Seq::<ActionModel>::empty());
        out
    }
}

/// A received transaction. Its identifier is the double SHA-256 of the whole
/// payload, shown byte-reversed: for a legacy transaction that is its txid,
/// and for a SegWit one, whose payload holds the marker, flag and witnesses,
/// it is the wtxid.
fn on_tx(payload: &[u8], peer_addr: &str) -> (out: MessageOutcome)
    requires
        tx_total_fits(payload@),
    ensures
        out@.summary == "txid="@ + short_hex(reversed(double_sha256_of(payload@))) + "..."@,
        out@.actions == match crate::transaction::tx_decode(payload@) {
            Ok(tx) => seq![
                ActionModel::Transaction(
                    tx_event_of(tx, hex_lower(reversed(double_sha256_of(payload@))), peer_addr@),
                    output_values(tx),
                ),
            ],
            Err(_) => seq![],
        },
{
    let hash = double_sha256(payload);
    let display = reverse_bytes(hash.as_slice());
    let txid = hex_encode(display.as_slice());
    let short = short_hex_of(display.as_slice());
    let mut summary = "txid=".to_owned();
    summary.append(short.as_str());
    summary.append("...");
    let mut actions: Vec<NodeAction> = Vec::new();
    match crate::transaction::parse_transaction(payload) {
        Ok(tx) => {
            let (event, values) = transaction_event(&tx, txid, peer_addr.to_owned());
            let a = NodeAction::Transaction(event, values);
            actions.push(a);
            assert(actions@.map_values(|a: NodeAction| a@) =~= seq![a@]);
        },
        Err(_) => {
            assert(actions@.map_values(|a: NodeAction| a@) =~= Seq::<ActionModel>::empty());
        },
    }
    MessageOutcome { summary, actions }
}

fn on_block(payload: &[u8]) -> (s: String)
    ensures
        s@ == (if payload@.len() >= 80 {
            "hash="@ + short_hex(reversed(double_sha256_of(payload@.take(80)))) + "..."@
        } else {
            "truncated"@
        }),
{
    if payload.len() >= 80 {
        let header = copy_range(payload, 0, 80);
        assert(payload@.subrange(0, 80) =~= payload@.take(80));
        let hash = double_sha256(header.as_slice());
        let display = reverse_bytes(hash.as_slice());
        let mut s = "hash=".to_owned();
        let short = short_hex_of(display.as_slice());
        s.append(short.as_str());
        s.append("...");
        s
    } else {
        "truncated".to_owned()
    }
}

fn on_feefilter(payload: &[u8]) -> (s: String)
    ensures
        s@ == (if payload@.len() >= 8 {
            decimal(le_value(payload@.take(8))) + " sat/kB minimum"@
        } else {
            "received"@
        }),
{
    if payload.len() >= 8 {
        let fee = read_le(payload, 0, 8);
        assert(payload@.subrange(0, 8) =~= payload@.take(8));
        let mut s = String::new();
        push_decimal(&mut s, fee);
        s.append(" sat/kB minimum");
        s
    } else {
        "received".to_owned()
    }
}

fn quiet(summary: String) -> (out: MessageOutcome)
    ensures
        out@.summary == summary@,
        out@.actions == Seq::<ActionModel>::empty(),
{
    let actions: Vec<NodeAction> = Vec::new();
    let out = MessageOutcome { summary, actions };
    assert(out@.actions =~= Seq::<ActionModel>::empty());
    out
}

} // verus!

verus! {

/// Decides what a received message means: its log line, what to send and
/// report, and how the connection state changes. A `tx` is reported under
/// the double SHA-256 of its whole payload, byte-reversed: the txid of a
/// legacy transaction, the wtxid of a SegWit one.
pub fn handle_message(state: &mut NodeState, command: &String, payload: &[u8], peer_addr: &str) -> (out: MessageOutcome)
    requires
        command@ == "tx"@ ==> tx_total_fits(payload@),
    ensures
        *final(state) == next_state(*old(state), command@),
        out@.summary == summary_of(*old(state), command@, payload@),
        out@.actions == actions_of(*old(state), command@, payload@, peer_addr@),
{
    proof {
        reveal_strlit("");
        reveal_strlit("version");
        assert("version"@.len() == 7 && "version"@[0] == 'v' && "version"@[1] == 'e');
        reveal_strlit("verack");
        assert("verack"@.len() == 6 && "verack"@[0] == 'v' && "verack"@[1] == 'e');
        reveal_strlit("ping");
        assert("ping"@.len() == 4 && "ping"@[0] == 'p' && "ping"@[1] == 'i');
        reveal_strlit("pong");
        assert("pong"@.len() == 4 && "pong"@[0] == 'p' && "pong"@[1] == 'o');
        reveal_strlit("inv");
        assert("inv"@.len() == 3 && "inv"@[0] == 'i' && "inv"@[1] == 'n');
        reveal_strlit("tx");
        assert("tx"@.len() == 2 && "tx"@[0] == 't' && "tx"@[1] == 'x');
        reveal_strlit("addr");
        assert("addr"@.len() == 4 && "addr"@[0] == 'a' && "addr"@[1] == 'd');
        reveal_strlit("headers");
        assert("headers"@.len() == 7 && "headers"@[0] == 'h' && "headers"@[1] == 'e');
        reveal_strlit("block");
        assert("block"@.len() == 5 && "block"@[0] == 'b' && "block"@[1] == 'l');
        reveal_strlit("feefilter");
        assert("feefilter"@.len() == 9 && "feefilter"@[0] == 'f' && "feefilter"@[1] == 'e');
        reveal_strlit("sendheaders");
        assert("sendheaders"@.len() == 11 && "sendheaders"@[0] == 's' && "sendheaders"@[1] == 'e');
        reveal_strlit("sendcmpct");
        assert("sendcmpct"@.len() == 9 && "sendcmpct"@[0] == 's' && "sendcmpct"@[1] == 'e');
        reveal_strlit("getheaders");
        assert("getheaders"@.len() == 10 && "getheaders"@[0] == 'g' && "getheaders"@[1] == 'e');
        reveal_strlit("getdata");
        assert("getdata"@.len() == 7 && "getdata"@[0] == 'g' && "getdata"@[1] == 'e');
        reveal_strlit("reject");
        assert("reject"@.len() == 6 && "reject"@[0] == 'r' && "reject"@[1] == 'e');
        reveal_strlit("notfound");
        assert("notfound"@.len() == 8 && "notfound"@[0] == 'n' && "notfound"@[1] == 'o');
    }
    if is_command(command, "version") {
        on_version(payload)
    } else if is_command(command, "verack") {
        state.is_connected = true;
        on_verack(peer_addr)
    } else if is_command(command, "ping") {
        on_ping(payload, true)
    } else if is_command(command, "pong") {
        on_ping(payload, false)
    } else if is_command(command, "inv") {
        if state.mempool_requested && !state.mempool_done {
            let (event, summary) = crate::inventory::mempool_snapshot(payload);
            state.mempool_done = true;
            let out = MessageOutcome { summary, actions: single(NodeAction::Mempool(event)) };
            assert(out@.actions =~= actions_of(*old(state), command@, payload@, peer_addr@));
            out
        } else {
            let (items, summary) = crate::inventory::inv_announcement(payload);
            let out = MessageOutcome { summary, actions: single(NodeAction::Announcement(items)) };
            assert(out@.actions =~= actions_of(*old(state), command@, payload@, peer_addr@));
            out
        }
    } else if is_command(command, "tx") {
        on_tx(payload, peer_addr)
    } else if is_command(command, "addr") {
        quiet(number_line("", read_leading_count(payload), " peer addresses"))
    } else if is_command(command, "headers") {
        quiet(number_line("", read_leading_count(payload), " block headers"))
    } else if is_command(command, "block") {
        quiet(on_block(payload))
    } else if is_command(command, "feefilter") {
        quiet(on_feefilter(payload))
    } else if is_command(command, "sendheaders") {
        quiet("peer prefers header announcements".to_owned())
    } else if is_command(command, "sendcmpct") {
        quiet("peer supports compact blocks".to_owned())
    } else if is_command(command, "getheaders") {
        quiet("ignoring (no headers to serve)".to_owned())
    } else if is_command(command, "getdata") {
        quiet("ignoring (no data to serve)".to_owned())
    } else if is_command(command, "reject") {
        quiet(number_line("", payload.len() as u64, " bytes"))
    } else if is_command(command, "notfound") {
        let summary = number_line("peer does not have ", read_leading_count(payload), " requested item(s)");
        let out = MessageOutcome { summary, actions: single(NodeAction::NotFound) };
        assert(out@.actions =~= seq![ActionModel::NotFound]);
        out
    } else {
        quiet(number_line("(", payload.len() as u64, " bytes payload)"))
    }
}

} // verus!

verus! {

impl NodeState {
    /// The state once the node loop has ended: neither running nor connected.
    pub fn stopped(&mut self)
        ensures
            *final(self) == (NodeState { is_connected: false, should_run: false, ..*old(self) }),
    {
        self.is_connected = false;
        self.should_run = false;
    }
}

/// A `verack` completes the handshake: afterwards the node counts as
/// connected, and the peer is asked for addresses.
pub proof fn lemma_verack_connects(s: NodeState, p: Seq<u8>, peer: Seq<char>)
    ensures
        next_state(s, "verack"@).is_connected,
        actions_of(s, "verack"@, p, peer).contains(ActionModel::Send("getaddr"@, seq![])),
{
    reveal_strlit("version");
    reveal_strlit("verack");
    assert("verack"@.len() == 6 && "version"@.len() == 7);
    assert(actions_of(s, "verack"@, p, peer)[1] == ActionModel::Send("getaddr"@, seq![]));
}

/// The first `inv` after a mempool request is its answer and is reported as
/// a snapshot; the request is then settled, so the next `inv` is reported as
/// an announcement.
pub proof fn lemma_mempool_answered_once(s: NodeState, first: Seq<u8>, second: Seq<u8>, peer: Seq<char>)
    requires
        awaiting_mempool(s),
    ensures
        actions_of(s, "inv"@, first, peer) == seq![ActionModel::Mempool(crate::inventory::mempool_of(first))],
        !awaiting_mempool(next_state(s, "inv"@)),
        actions_of(next_state(s, "inv"@), "inv"@, second, peer) == seq![
            ActionModel::Announcement(crate::inventory::announced_items(second)),
        ],
{
    reveal_strlit("version");
    reveal_strlit("verack");
    reveal_strlit("ping");
    reveal_strlit("inv");
    assert("inv"@.len() == 3 && "verack"@.len() == 6 && "version"@.len() == 7 && "ping"@.len() == 4);
}

/// Only a `verack` or the answer to a mempool request changes the state.
pub proof fn lemma_state_kept(s: NodeState, c: Seq<char>)
    requires
        c != "verack"@,
        !(c == "inv"@ && awaiting_mempool(s)),
    ensures
        next_state(s, c) == s,
{
}

/// A ping with a nonce is answered by a pong that echoes the nonce.
pub proof fn lemma_ping_echoed(s: NodeState, p: Seq<u8>, peer: Seq<char>)
    requires
        p.len() >= 8,
    ensures
        actions_of(s, "ping"@, p, peer) == seq![ActionModel::Send("pong"@, p.take(8))],
{
    reveal_strlit("version");
    reveal_strlit("verack");
    reveal_strlit("ping");
    assert("verack"@.len() == 6 && "version"@.len() == 7 && "ping"@.len() == 4);
}

} // verus!

//! Decisions behind the user's commands: connecting, disconnecting, and
//! asking the peer for a transaction or for its mempool.

use vstd::prelude::*;
use crate::encoding::{le_bytes, push_le};
use crate::node::{NodeState, reversed};
use crate::text::{digit_str, hex_digit};

verus! {

/// The state after a connect command: running.
pub open spec fn after_connect(s: NodeState) -> NodeState {
    NodeState { should_run: true, ..s }
}

/// The state after a disconnect command: asked to stop.
pub open spec fn after_disconnect(s: NodeState) -> NodeState {
    NodeState { should_run: false, ..s }
}

/// Starts the node unless it is already running.
pub fn connect(state: &mut NodeState) -> (r: Result<String, String>)
    ensures
        *final(state) == after_connect(*old(state)),
        old(state).should_run ==> (r matches Err(e) && e@ == "Already connected or connecting"@),
        !old(state).should_run ==> (r matches Ok(m) && m@ == "Connecting..."@),
{
    if state.should_run {
        return Err("Already connected or connecting".to_owned());
    }
    state.should_run = true;
    Ok("Connecting...".to_owned())
}

/// Asks the node loop to stop.
pub fn disconnect(state: &mut NodeState) -> (m: String)
    ensures
        m@ == "Disconnecting..."@,
        *final(state) == after_disconnect(*old(state)),
{
    state.should_run = false;
    "Disconnecting...".to_owned()
}

/// How the two commands move the run flag: a connect sets it, so a second
/// connect is refused and leaves the state as it was; a disconnect clears it,
/// so the next connect is accepted. The flag is all these commands touch:
/// whether a loop started earlier has already stopped is not said here.
pub proof fn lemma_run_flag(s: NodeState)
    ensures
        after_connect(s).should_run,
        after_connect(after_connect(s)) == after_connect(s),
        !after_disconnect(after_connect(s)).should_run,
        after_connect(after_disconnect(s)).should_run,
{
}

// ── Transaction requests ─────────────────────────────────────────────────────

/// The value of a hexadecimal digit, in either case.
pub open spec fn hex_value(c: u8) -> Option<u8> {
    if 0x30 <= c <= 0x39 {
        Some((c - 0x30) as u8)
    } else if 0x61 <= c <= 0x66 {
        Some((c - 0x61 + 10) as u8)
    } else if 0x41 <= c <= 0x46 {
        Some((c - 0x41 + 10) as u8)
    } else {
        None
    }
}

/// How a two-character field reads as a base-16 `u8`, as
/// `u8::from_str_radix` reads it: two digits, or a `+` sign and one digit.
pub open spec fn pair_value(b0: u8, b1: u8) -> Option<u8> {
    if b0 == 0x2B {
        hex_value(b1)
    } else {
        match (hex_value(b0), hex_value(b1)) {
            (Some(hi), Some(lo)) => Some((16 * hi + lo) as u8),
            _ => None,
        }
    }
}

/// Whether byte pair `i` of a 64-byte text reads as a number.
pub open spec fn pair_ok(b: Seq<u8>, i: int) -> bool {
    pair_value(b[2 * i], b[2 * i + 1]) is Some
}

/// Whether `k` is the end of a 64-byte text or a byte that starts a character.
pub open spec fn starts_char(b: Seq<u8>, k: int) -> bool {
    k == b.len() || b[k] < 0x80 || b[k] >= 0xC0
}

/// Whether two-byte field `i` starts and ends on a character boundary.
pub open spec fn field_bounded(b: Seq<u8>, i: int) -> bool {
    starts_char(b, 2 * i) && starts_char(b, 2 * i + 2)
}

/// Whether the two-byte fields read from a 64-byte text, from field `i`
/// on, start and end on character boundaries; reading stops after the first
/// field that is not a number.
pub open spec fn fields_bounded_from(b: Seq<u8>, i: int) -> bool
    decreases 32 - i,
{
    if i < 0 || i >= 32 {
        true
    } else if !field_bounded(b, i) {
        false
    } else if !pair_ok(b, i) {
        true
    } else {
        fields_bounded_from(b, i + 1)
    }
}

/// Whether every two-byte field that is read from a 64-byte text starts and
/// ends on a character boundary.
pub open spec fn txid_fields_on_boundaries(b: Seq<u8>) -> bool {
    b.len() == 64 ==> fields_bounded_from(b, 0)
}

/// The 32 bytes a 64-digit txid denotes, in internal order (the text shows
/// them reversed), when every pair of digits reads as a number.
pub open spec fn txid_bytes(b: Seq<u8>) -> Option<Seq<u8>> {
    if forall|i: int| 0 <= i < 32 ==> #[trigger] pair_ok(b, i) {
        Some(reversed(Seq::new(32, |i: int| pair_value(b[2 * i], b[2 * i + 1])->Some_0)))
    } else {
        None
    }
}

/// The `getdata` payload asking for one transaction with its witness data.
pub open spec fn getdata_payload(txid: Seq<u8>) -> Seq<u8> {
    seq![1u8] + le_bytes(0x40000001, 4) + txid
}

/// What a transaction request sends and answers, or why it is refused.
pub open spec fn tx_request_of(txid_hex: Seq<char>, s: NodeState) -> Result<(Seq<u8>, Seq<char>), Seq<char>> {
    let b = vstd::utf8::encode_utf8(txid_hex);
    if b.len() != 64 {
        Err("TXID must be exactly 64 hex characters"@)
    } else {
        match txid_bytes(b) {
            None => Err("Invalid hex character in TXID"@),
            Some(t) => if !s.is_connected {
                Err("Not connected to a peer"@)
            } else {
                Ok(
                    (
                        getdata_payload(t),
                        "Requested TX: "@ + Seq::new(16, |k: int| b[k] as char) + "..."@,
                    ),
                )
            },
        }
    }
}

fn hex_value_of(c: u8) -> (v: Option<u8>)
    ensures
        v == hex_value(c),
{
    if 0x30 <= c && c <= 0x39 {
        Some(c - 0x30)
    } else if 0x61 <= c && c <= 0x66 {
        Some(c - 0x61 + 10)
    } else if 0x41 <= c && c <= 0x46 {
        Some(c - 0x41 + 10)
    } else {
        None
    }
}

fn pair_value_of(b0: u8, b1: u8) -> (v: Option<u8>)
    ensures
        v == pair_value(b0, b1),
{
    if b0 == 0x2B {
        hex_value_of(b1)
    } else {
        match (hex_value_of(b0), hex_value_of(b1)) {
            (Some(hi), Some(lo)) => Some(16 * hi + lo),
            _ => None,
        }
    }
}

/// A one-character string for a byte that is a hexadecimal digit or `+`.
fn field_char_str(c: u8) -> (s: &'static str)
    requires
        c == 0x2B || hex_value(c) is Some,
    ensures
        s@ == seq![c as char],
{
    if c == 0x2B {
        proof {
            reveal_strlit("+");
        }
        "+"
    } else if c <= 0x39 {
        digit_str(c - 0x30, false)
    } else if c >= 0x61 {
        digit_str(c - 0x61 + 10, false)
    } else {
        digit_str(c - 0x41 + 10, true)
    }
}

/// Parses a displayed txid and builds the `getdata` request for it, with the
/// reply for the user; refused when the text is not 64 hex digits or when no
/// peer is connected.
pub fn request_tx(txid_hex: &str, state: &NodeState) -> (r: Result<(Vec<u8>, String), String>)
    requires
        txid_fields_on_boundaries(vstd::utf8::encode_utf8(txid_hex@)),
    ensures
        match r {
            Ok((payload, reply)) => tx_request_of(txid_hex@, *state) == Ok::<(Seq<u8>, Seq<char>), Seq<char>>((payload@, reply@)),
            Err(e) => tx_request_of(txid_hex@, *state) == Err::<(Seq<u8>, Seq<char>), Seq<char>>(e@),
        },
{
    let b = txid_hex.as_bytes();
    assert(b@ == vstd::utf8::encode_utf8(txid_hex@));
    if b.len() != 64 {
        return Err("TXID must be exactly 64 hex characters".to_owned());
    }
    let mut bytes = [0u8; 32];
    let mut i: usize = 0;
    while i < 32
        invariant
            i <= 32,
            b@.len() == 64,
            b@ == vstd::utf8::encode_utf8(txid_hex@),
            forall|j: int| 0 <= j < i ==> #[trigger] pair_ok(b@, j),
            forall|j: int| 0 <= j < i ==> bytes@[j] == pair_value(b@[2 * j], b@[2 * j + 1])->Some_0,
        decreases 32 - i,
    {
        match pair_value_of(b[2 * i], b[2 * i + 1]) {
            Some(v) => {
                bytes[i] = v;
            },
            None => {
                assert(!pair_ok(b@, i as int));
                assert(txid_bytes(b@) is None);
                return Err("Invalid hex character in TXID".to_owned());
            },
        }
        i = i + 1;
    }
    // Display order to internal byte order.
    let mut internal: Vec<u8> = Vec::new();
    let mut k: usize = 0;
    while k < 32
        invariant
            k <= 32,
            internal@ == reversed(bytes@).take(k as int),
        decreases 32 - k,
    {
        internal.push(bytes[31 - k]);
        k = k + 1;
        assert(internal@ =~= reversed(bytes@).take(k as int));
    }
    assert(bytes@ =~= Seq::new(32, |i: int| pair_value(b@[2 * i], b@[2 * i + 1])->Some_0));
    assert(reversed(bytes@).take(32) =~= reversed(bytes@));
    if !state.is_connected {
        return Err("Not connected to a peer".to_owned());
    }
    let mut payload: Vec<u8> = Vec::new();
    payload.push(1);
    push_le(&mut payload, 0x40000001, 4);
    crate::encoding::append_bytes(&mut payload, internal.as_slice());
    let mut reply = "Requested TX: ".to_owned();
    let mut n: usize = 0;
    while n < 16
        invariant
            n <= 16,
            b@.len() == 64,
            forall|j: int| 0 <= j < 32 ==> #[trigger] pair_ok(b@, j),
            reply@ == "Requested TX: "@ + Seq::new(n as nat, |k: int| b@[k] as char),
        decreases 16 - n,
    {
        assert(pair_ok(b@, (n / 2) as int));
        let c = b[n];
        let s = field_char_str(c);
        reply.append(s);
        assert(reply@ =~= "Requested TX: "@ + Seq::new((n + 1) as nat, |k: int| b@[k] as char));
        n = n + 1;
    }
    reply.append("...");
    assert(payload@ =~= getdata_payload(internal@));
    Ok((payload, reply))
}

/// Whether the two-byte fields of a txid text fall on character boundaries,
/// which reading it as a txid requires.
pub fn txid_fields_ok(txid_hex: &str) -> (ok: bool)
    ensures
        ok == txid_fields_on_boundaries(vstd::utf8::encode_utf8(txid_hex@)),
{
    let b = txid_hex.as_bytes();
    assert(b@ == vstd::utf8::encode_utf8(txid_hex@));
    if b.len() != 64 {
        return true;
    }
    let mut i: usize = 0;
    while i < 32
        invariant
            i <= 32,
            b@.len() == 64,
            b@ == vstd::utf8::encode_utf8(txid_hex@),
            fields_bounded_from(b@, 0) == fields_bounded_from(b@, i as int),
        decreases 32 - i,
    {
        let lo = b[2 * i];
        let lo_ok = lo < 0x80 || lo >= 0xC0;
        let hi_ok = 2 * i + 2 == 64 || b[2 * i + 2] < 0x80 || b[2 * i + 2] >= 0xC0;
        if !lo_ok || !hi_ok {
            assert(!field_bounded(b@, i as int));
            assert(!fields_bounded_from(b@, i as int));
            return false;
        }
        if pair_value_of(b[2 * i], b[2 * i + 1]).is_none() {
            assert(fields_bounded_from(b@, i as int));
            return true;
        }
        assert(fields_bounded_from(b@, i as int) == fields_bounded_from(b@, i + 1));
        i = i + 1;
    }
    assert(fields_bounded_from(b@, 32));
    true
}

// ── Mempool requests ─────────────────────────────────────────────────────────

/// A mempool request needs a connected peer.
pub fn request_mempool(state: &NodeState) -> (r: Result<(), String>)
    ensures
        state.is_connected ==> r is Ok,
        !state.is_connected ==> (r matches Err(e) && e@ == "Not connected to a peer"@),
{
    if !state.is_connected {
        return Err("Not connected to a peer".to_owned());
    }
    Ok(())
}

/// Records that the `mempool` message went out: the next `inv` is its answer.
pub fn mempool_request_sent(state: &mut NodeState) -> (m: String)
    ensures
        m@ == "Mempool request sent"@,
        *final(state) == (NodeState { mempool_requested: true, mempool_done: false, ..*old(state) }),
{
    state.mempool_requested = true;
    state.mempool_done = false;
    "Mempool request sent".to_owned()
}

} // verus!

verus! {

proof fn lemma_fields_bounded_from(b: Seq<u8>, k: int)
    requires
        0 <= k <= 32,
        forall|i: int| 0 <= i < 32 ==> #[trigger] field_bounded(b, i) && pair_ok(b, i),
    ensures
        fields_bounded_from(b, k),
    decreases 32 - k,
{
    if k < 32 {
        assert(field_bounded(b, k));
        lemma_fields_bounded_from(b, k + 1);
    }
}

/// A hexadecimal digit as shown reads back as its value.
proof fn lemma_hex_digit_value(x: int)
    requires
        0 <= x < 16,
    ensures
        hex_value(hex_digit(x, false) as u8) == Some(x as u8),
        hex_digit(x, false) as u8 != 0x2B,
        (hex_digit(x, false) as u8) < 0x80,
        (hex_digit(x, false) as u8) as char == hex_digit(x, false),
{
}

/// A transaction shown by its display-order hash is requested with the hash
/// in internal order: the text the library renders for a txid reads back
/// as the same 32 bytes, and the request asks for that transaction.
pub proof fn lemma_displayed_txid_requested(display: Seq<u8>, s: NodeState)
    requires
        display.len() == 32,
        s.is_connected,
    ensures
        txid_fields_on_boundaries(vstd::utf8::encode_utf8(crate::text::hex_lower(display))),
        tx_request_of(crate::text::hex_lower(display), s) == Ok::<(Seq<u8>, Seq<char>), Seq<char>>(
            (
                getdata_payload(reversed(display)),
                "Requested TX: "@ + crate::text::hex_lower(display).take(16) + "..."@,
            ),
        ),
{
    let t = crate::text::hex_lower(display);
    crate::text::lemma_hex_lower_len(display);
    assert forall|k: int| 0 <= k < t.len() implies t[k] == hex_digit(
        (if k % 2 == 0 { display[k / 2] / 16 } else { display[k / 2] % 16 }) as int,
        false,
    ) by {
        crate::text::lemma_hex_lower_at(display, k / 2);
    }
    assert forall|k: int| 0 <= k < t.len() implies '\0' <= #[trigger] t[k] <= '\u{7f}' by {
        let x = (if k % 2 == 0 { display[k / 2] / 16 } else { display[k / 2] % 16 }) as int;
        lemma_hex_digit_value(x);
    }
    assert(vstd::utf8::is_ascii_chars(t));
    vstd::utf8::is_ascii_chars_encode_utf8(t);
    let b = vstd::utf8::encode_utf8(t);
    assert forall|i: int| 0 <= i < 32 implies field_bounded(b, i) && #[trigger] pair_ok(b, i)
        && pair_value(b[2 * i], b[2 * i + 1]) == Some(display[i]) by {
        crate::text::lemma_hex_lower_at(display, i);
        lemma_hex_digit_value((display[i] / 16) as int);
        lemma_hex_digit_value((display[i] % 16) as int);
        assert(b[2 * i] == t[2 * i] as u8);
        assert(b[2 * i + 1] == t[2 * i + 1] as u8);
        if 2 * i + 2 < 64 {
            assert(b[2 * i + 2] == t[2 * i + 2] as u8);
            let x = (if (2 * i + 2) % 2 == 0 { display[(2 * i + 2) / 2] / 16 } else { display[(2 * i + 2) / 2] % 16 }) as int;
            lemma_hex_digit_value(x);
        }
    }
    lemma_fields_bounded_from(b, 0);
    assert(Seq::new(32, |i: int| pair_value(b[2 * i], b[2 * i + 1])->Some_0) =~= display);
    assert(Seq::new(16, |k: int| b[k] as char) =~= t.take(16)) by {
        assert forall|k: int| 0 <= k < 16 implies b[k] as char == t[k] by {
            let x = (if k % 2 == 0 { display[k / 2] / 16 } else { display[k / 2] % 16 }) as int;
            lemma_hex_digit_value(x);
        }
    }
}

} // verus!

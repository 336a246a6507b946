//! The `version` handshake message: building our payload and describing a
//! peer's payload.

use vstd::prelude::*;
use crate::encoding::{
    decode_varint, encode_net_addr, encode_varstr, le_bytes, le_value, net_addr_bytes, push_le,
    append_bytes, read_le, varint_decode, varstr_bytes, copy_range,
};
use crate::text::{
    decimal, from_utf8_lossy, hex_upper_fixed, push_decimal, push_hex_upper, push_signed_decimal,
    signed_decimal, utf8_lossy, same_text_outcome,
};

verus! {

/// Protocol version we announce (SegWit and fee filter support).
pub const PROTOCOL_VERSION: i32 = 70015;

/// Calls `rand::random::<u64>()`: a random 64-bit nonce from the thread-local
/// generator, used to detect connections to ourselves. Nothing is promised
/// of the value.
#[verifier::external_body]
pub fn generate_nonce() -> u64 {
    rand::random::<u64>()
}

/// Our user agent.
pub open spec fn user_agent_text() -> Seq<char> {
    "/rust-bitcoin-client:0.1.0/"@
}

/// The `version` payload we send to the peer at `receiver_ip:receiver_port`,
/// at Unix time `timestamp`, with self-connection nonce `nonce`.
pub open spec fn version_payload_bytes(receiver_ip: Seq<u8>, receiver_port: u16, timestamp: i64, nonce: u64) -> Seq<u8> {
    le_bytes(70015, 4)
        + le_bytes(0, 8)
        + le_bytes((timestamp as u64) as nat, 8)
        + net_addr_bytes(1, receiver_ip, receiver_port)
        + net_addr_bytes(0, seq![0u8, 0u8, 0u8, 0u8], 0)
        + le_bytes(nonce as nat, 8)
        + varstr_bytes(user_agent_text())
        + le_bytes(0, 4)
        + seq![1u8]
}

/// Builds the `version` payload for a given timestamp and nonce.
pub fn version_payload_with_nonce(receiver_ip: [u8; 4], receiver_port: u16, timestamp: i64, nonce: u64) -> (payload: Vec<u8>)
    ensures
        payload@ == version_payload_bytes(receiver_ip@, receiver_port, timestamp, nonce),
{
    let mut payload: Vec<u8> = Vec::new();
    // Protocol version.
    push_le(&mut payload, PROTOCOL_VERSION as u64, 4);
    // Services: an observer serves nothing.
    push_le(&mut payload, 0, 8);
    push_le(&mut payload, timestamp as u64, 8);
    // addr_recv, then addr_from (unused, all zeros).
    let recv = encode_net_addr(1, receiver_ip, receiver_port);
    append_bytes(&mut payload, recv.as_slice());
    let from = encode_net_addr(0, [0, 0, 0, 0], 0);
    append_bytes(&mut payload, from.as_slice());
    push_le(&mut payload, nonce, 8);
    let ua = encode_varstr("/rust-bitcoin-client:0.1.0/");
    append_bytes(&mut payload, ua.as_slice());
    // Start height: we hold no blocks.
    push_le(&mut payload, 0, 4);
    // Relay: we want unconfirmed transactions.
    payload.push(1);
    assert(seq![0u8, 0u8, 0u8, 0u8] =~= [0u8, 0u8, 0u8, 0u8]@);
    assert(payload@ =~= version_payload_bytes(receiver_ip@, receiver_port, timestamp, nonce));
    payload
}

/// Builds the `version` payload sent to the peer at `receiver_ip:receiver_port`
/// at Unix time `timestamp`, with a fresh random nonce.
pub fn build_version_payload(receiver_ip: [u8; 4], receiver_port: u16, timestamp: i64) -> (payload: Vec<u8>)
    ensures
        exists|nonce: u64| payload@ == version_payload_bytes(receiver_ip@, receiver_port, timestamp, nonce),
{
    let nonce = generate_nonce();
    version_payload_with_nonce(receiver_ip, receiver_port, timestamp, nonce)
}

} // verus!

verus! {

/// A little-endian two's-complement 32-bit integer.
pub open spec fn le_i32(bytes: Seq<u8>) -> i32 {
    (le_value(bytes) as u32) as i32
}

/// A little-endian two's-complement 64-bit integer.
pub open spec fn le_i64(bytes: Seq<u8>) -> i64 {
    (le_value(bytes) as u64) as i64
}

/// The one-line description of a peer's `version` fields.
pub open spec fn version_text(version: i32, services: nat, timestamp: i64, nonce: nat, user_agent: Seq<char>, height: i32) -> Seq<char> {
    "version="@ + signed_decimal(version as int) + " services=0x"@ + hex_upper_fixed(services, 16)
        + " timestamp="@ + signed_decimal(timestamp as int) + " nonce="@ + hex_upper_fixed(nonce, 16)
        + " user_agent='"@ + user_agent + "' height="@ + signed_decimal(height as int)
}

/// The description of a received `version` payload, or the message for the
/// field at which it is truncated.
pub open spec fn version_summary(p: Seq<u8>) -> Result<Seq<char>, Seq<char>> {
    if p.len() < 46 {
        Err("Version payload too short: "@ + decimal(p.len()) + " bytes"@)
    } else if p.len() < 80 {
        Err("Payload truncated at nonce"@)
    } else {
        match varint_decode(p, 80) {
            Err(e) => Err(e),
            Ok((ua_len, used)) => {
                let start = 80 + used;
                let end = start + (ua_len as usize);
                if end > p.len() {
                    Err("Payload truncated at user_agent"@)
                } else if end + 4 > p.len() {
                    Err("Payload truncated at start_height"@)
                } else {
                    Ok(
                        version_text(
                            le_i32(p.subrange(0, 4)),
                            le_value(p.subrange(4, 12)),
                            le_i64(p.subrange(12, 20)),
                            le_value(p.subrange(72, 80)),
                            utf8_lossy(p.subrange(start, end)),
                            le_i32(p.subrange(end, end + 4)),
                        ),
                    )
                }
            },
        }
    }
}

/// Describes a received `version` payload in one human-readable line.
pub fn decode_version_payload(payload: &[u8]) -> (r: Result<String, String>)
    ensures
        same_text_outcome(r, version_summary(payload@)),
{
    let len = payload.len();
    if len < 46 {
        let mut msg = "Version payload too short: ".to_owned();
        push_decimal(&mut msg, len as u64);
        msg.append(" bytes");
        return Err(msg);
    }
    let version = (#[verifier::truncate] (read_le(payload, 0, 4) as u32)) as i32;
    let services = read_le(payload, 4, 8);
    let timestamp = read_le(payload, 12, 8) as i64;
    // addr_recv and addr_from (26 bytes each) are skipped.
    if len < 80 {
        return Err("Payload truncated at nonce".to_owned());
    }
    let nonce = read_le(payload, 72, 8);
    let (ua_len, used) = match decode_varint(payload, 80) {
        Ok(x) => x,
        Err(e) => {
            return Err(e);
        },
    };
    let start = 80 + used;
    let ua_len = #[verifier::truncate] (ua_len as usize);
    if ua_len > len - start {
        return Err("Payload truncated at user_agent".to_owned());
    }
    let end = start + ua_len;
    let ua_bytes = copy_range(payload, start, end);
    let user_agent = from_utf8_lossy(ua_bytes.as_slice());
    if len - end < 4 {
        return Err("Payload truncated at start_height".to_owned());
    }
    let height = (#[verifier::truncate] (read_le(payload, end, 4) as u32)) as i32;

    let mut s = "version=".to_owned();
    push_signed_decimal(&mut s, version as i64);
    s.append(" services=0x");
    push_hex_upper(&mut s, services, 16);
    s.append(" timestamp=");
    push_signed_decimal(&mut s, timestamp);
    s.append(" nonce=");
    push_hex_upper(&mut s, nonce, 16);
    s.append(" user_agent='");
    s.append(user_agent.as_str());
    s.append("' height=");
    push_signed_decimal(&mut s, height as i64);
    assert(s@ =~= version_text(version, services as nat, timestamp, nonce as nat, user_agent@, height));
    Ok(s)
}

} // verus!

verus! {

/// Every character is ASCII, checked one character at a time.
spec fn all_ascii(s: Seq<char>) -> bool
    decreases s.len(),
{
    if s.len() == 0 {
        true
    } else {
        '\0' <= s[0] <= '\u{7f}' && all_ascii(s.drop_first())
    }
}

proof fn lemma_all_ascii(s: Seq<char>)
    requires
        all_ascii(s),
    ensures
        vstd::utf8::is_ascii_chars(s),
    decreases s.len(),
{
    if s.len() > 0 {
        lemma_all_ascii(s.drop_first());
        assert forall|i: int| 0 <= i < s.len() implies '\0' <= #[trigger] s[i] <= '\u{7f}' by {
            if i > 0 {
                assert(s[i] == s.drop_first()[i - 1]);
            }
        }
    }
}

/// Our user agent is 27 ASCII characters, hence 27 bytes.
proof fn lemma_user_agent_bytes()
    ensures
        vstd::utf8::encode_utf8(user_agent_text()).len() == 27,
{
    reveal_strlit("/rust-bitcoin-client:0.1.0/");
    let chars = seq![
        '/', 'r', 'u', 's', 't', '-', 'b', 'i', 't', 'c', 'o', 'i', 'n', '-', 'c', 'l', 'i', 'e',
        'n', 't', ':', '0', '.', '1', '.', '0', '/',
    ];
    assert(user_agent_text() =~= chars);
    assert(all_ascii(chars)) by {
        reveal_with_fuel(all_ascii, 28);
    }
    lemma_all_ascii(chars);
    vstd::utf8::is_ascii_chars_encode_utf8(chars);
}

/// Our `version` payload, read back as a peer reads it, describes what we
/// put in it: protocol version 70015, no services, our timestamp and nonce,
/// our user agent and start height 0; the peer panel shows the same.
pub proof fn lemma_version_payload_read_back(ip: Seq<u8>, port: u16, timestamp: i64, nonce: u64)
    requires
        ip.len() == 4,
    ensures
        version_summary(version_payload_bytes(ip, port, timestamp, nonce)) == Ok::<Seq<char>, Seq<char>>(
            version_text(
                70015,
                0,
                timestamp,
                nonce as nat,
                utf8_lossy(vstd::utf8::encode_utf8(user_agent_text())),
                0,
            ),
        ),
        crate::node::peer_info_of(version_payload_bytes(ip, port, timestamp, nonce)) == Some(
            crate::node::PeerInfoModel {
                protocol_version: 70015,
                user_agent: utf8_lossy(vstd::utf8::encode_utf8(user_agent_text())),
                start_height: 0,
                services: "0x"@ + hex_upper_fixed(0, 16),
            },
        ),
{
    crate::encoding::lemma_pow256_values();
    lemma_user_agent_bytes();
    let ua = vstd::utf8::encode_utf8(user_agent_text());
    let p = version_payload_bytes(ip, port, timestamp, nonce);
    crate::encoding::lemma_le_roundtrip(70015, 4);
    crate::encoding::lemma_le_roundtrip(0, 8);
    crate::encoding::lemma_le_roundtrip((timestamp as u64) as nat, 8);
    crate::encoding::lemma_le_roundtrip(nonce as nat, 8);
    crate::encoding::lemma_le_roundtrip(0, 4);
    crate::encoding::lemma_le_bytes_len(1, 8);
    crate::encoding::lemma_le_bytes_len(0, 8);
    assert(net_addr_bytes(1, ip, port).len() == 26);
    assert(net_addr_bytes(0, seq![0u8, 0u8, 0u8, 0u8], 0).len() == 26);
    assert(varstr_bytes(user_agent_text()) =~= seq![27u8] + ua);
    assert(p.len() == 113);
    assert(p.subrange(0, 4) =~= le_bytes(70015, 4));
    assert(p.subrange(4, 12) =~= le_bytes(0, 8));
    assert(p.subrange(12, 20) =~= le_bytes((timestamp as u64) as nat, 8));
    assert(p.subrange(72, 80) =~= le_bytes(nonce as nat, 8));
    assert(p[80] == 27u8);
    assert(p.subrange(81, 108) =~= ua);
    assert(p.subrange(108, 112) =~= le_bytes(0, 4));
    assert(((timestamp as u64) as i64) == timestamp) by (bit_vector);
    assert(le_i64(p.subrange(12, 20)) == timestamp);
}

} // verus!

verus! {

/// A `version` payload as any peer writes it: protocol version, services,
/// timestamp, the two 26-byte network addresses, nonce, user agent (a
/// varint length and its bytes), start height, then whatever the peer adds,
/// such as the relay byte.
pub open spec fn peer_version_bytes(
    version: i32,
    services: u64,
    timestamp: i64,
    addrs: Seq<u8>,
    nonce: u64,
    user_agent: Seq<u8>,
    height: i32,
    after: Seq<u8>,
) -> Seq<u8> {
    le_bytes((version as u32) as nat, 4) + le_bytes(services as nat, 8) + le_bytes((timestamp as u64) as nat, 8)
        + addrs + le_bytes(nonce as nat, 8) + crate::encoding::varint_bytes(user_agent.len() as u64)
        + user_agent + le_bytes((height as u32) as nat, 4) + after
}

/// Every field a peer writes in its `version` payload is read back as
/// written, whatever follows the start height: the log line shows the
/// version, services, timestamp, nonce, user agent and start height, and the
/// peer panel the version, user agent, start height and services.
pub proof fn lemma_peer_version_read_back(
    version: i32,
    services: u64,
    timestamp: i64,
    addrs: Seq<u8>,
    nonce: u64,
    user_agent: Seq<u8>,
    height: i32,
    after: Seq<u8>,
)
    requires
        addrs.len() == 52,
        user_agent.len() <= usize::MAX,
    ensures
        version_summary(peer_version_bytes(version, services, timestamp, addrs, nonce, user_agent, height, after))
            == Ok::<Seq<char>, Seq<char>>(
            version_text(version, services as nat, timestamp, nonce as nat, utf8_lossy(user_agent), height),
        ),
        crate::node::peer_info_of(peer_version_bytes(version, services, timestamp, addrs, nonce, user_agent, height, after))
            == Some(
            crate::node::PeerInfoModel {
                protocol_version: version,
                user_agent: utf8_lossy(user_agent),
                start_height: height,
                services: "0x"@ + hex_upper_fixed(services as nat, 16),
            },
        ),
{
    crate::encoding::lemma_pow256_values();
    let p = peer_version_bytes(version, services, timestamp, addrs, nonce, user_agent, height, after);
    let v4 = le_bytes((version as u32) as nat, 4);
    let s8 = le_bytes(services as nat, 8);
    let t8 = le_bytes((timestamp as u64) as nat, 8);
    let n8 = le_bytes(nonce as nat, 8);
    let h4 = le_bytes((height as u32) as nat, 4);
    crate::encoding::lemma_le_roundtrip((version as u32) as nat, 4);
    crate::encoding::lemma_le_roundtrip(services as nat, 8);
    crate::encoding::lemma_le_roundtrip((timestamp as u64) as nat, 8);
    crate::encoding::lemma_le_roundtrip(nonce as nat, 8);
    crate::encoding::lemma_le_roundtrip((height as u32) as nat, 4);
    let n = user_agent.len() as u64;
    let head = v4 + s8 + t8 + addrs + n8;
    assert(head.len() == 80);
    assert(p =~= head + crate::encoding::varint_bytes(n) + (user_agent + h4 + after));
    crate::encoding::lemma_varint_roundtrip(n, head, user_agent + h4 + after);
    let start: int = (80 + crate::encoding::varint_bytes(n).len()) as int;
    let end: int = start + user_agent.len();
    assert(p.subrange(0, 4) =~= v4);
    assert(p.subrange(4, 12) =~= s8);
    assert(p.subrange(12, 20) =~= t8);
    assert(p.subrange(72, 80) =~= n8);
    assert(p.subrange(start, end) =~= user_agent);
    assert(p.subrange(end, end + 4) =~= h4);
    assert(((version as u32) as i32) == version) by (bit_vector);
    assert(((height as u32) as i32) == height) by (bit_vector);
    assert(((timestamp as u64) as i64) == timestamp) by (bit_vector);
    assert((n as usize) as int == user_agent.len());
}

/// A peer's `version` payload cut short anywhere before the end of its start
/// height is not described but refused, with the field at which it stops.
pub proof fn lemma_peer_version_truncated(
    version: i32,
    services: u64,
    timestamp: i64,
    addrs: Seq<u8>,
    nonce: u64,
    user_agent: Seq<u8>,
    height: i32,
    after: Seq<u8>,
    k: int,
)
    requires
        addrs.len() == 52,
        user_agent.len() <= usize::MAX,
        0 <= k < 84 + crate::encoding::varint_bytes(user_agent.len() as u64).len() + user_agent.len(),
    ensures
        ({
            let t = peer_version_bytes(version, services, timestamp, addrs, nonce, user_agent, height, after).take(k);
            let start = 80 + crate::encoding::varint_bytes(user_agent.len() as u64).len();
            &&& version_summary(t) is Err
            &&& k < 46 ==> version_summary(t) == Err::<Seq<char>, Seq<char>>(
                "Version payload too short: "@ + decimal(k as nat) + " bytes"@,
            )
            &&& 46 <= k < 80 ==> version_summary(t) == Err::<Seq<char>, Seq<char>>("Payload truncated at nonce"@)
            &&& start <= k < start + user_agent.len() ==> version_summary(t) == Err::<Seq<char>, Seq<char>>(
                "Payload truncated at user_agent"@,
            )
            &&& start + user_agent.len() <= k ==> version_summary(t) == Err::<Seq<char>, Seq<char>>(
                "Payload truncated at start_height"@,
            )
        }),
{
    crate::encoding::lemma_pow256_values();
    let p = peer_version_bytes(version, services, timestamp, addrs, nonce, user_agent, height, after);
    let t = p.take(k);
    let n = user_agent.len() as u64;
    let vb = crate::encoding::varint_bytes(n);
    crate::encoding::lemma_le_bytes_len((version as u32) as nat, 4);
    crate::encoding::lemma_le_bytes_len(services as nat, 8);
    crate::encoding::lemma_le_bytes_len((timestamp as u64) as nat, 8);
    crate::encoding::lemma_le_bytes_len(nonce as nat, 8);
    crate::encoding::lemma_le_bytes_len((height as u32) as nat, 4);
    let head = le_bytes((version as u32) as nat, 4) + le_bytes(services as nat, 8) + le_bytes(
        (timestamp as u64) as nat,
        8,
    ) + addrs + le_bytes(nonce as nat, 8);
    let rest = user_agent + le_bytes((height as u32) as nat, 4) + after;
    assert(head.len() == 80);
    assert(p =~= head + vb + rest);
    crate::encoding::lemma_varint_roundtrip(n, head, rest);
    let v: int = vb.len() as int;
    assert((n as usize) as int == user_agent.len());
    if k >= 80 && k < 80 + v {
        if varint_decode(t, 80) is Ok {
            crate::encoding::lemma_varint_extend(t, p.skip(k), 80);
            assert(t + p.skip(k) =~= p);
        }
    } else if k >= 80 + v {
        assert(t =~= head + vb + rest.take(k - 80 - v));
        crate::encoding::lemma_varint_roundtrip(n, head, rest.take(k - 80 - v));
    }
}

/// The peer panel for a peer's `version` payload cut short before the end
/// of its start height: nothing when the user agent's length cannot be read;
/// otherwise the fields as written, with the user agent cut where the
/// payload ends and a start height of 0.
pub proof fn lemma_peer_panel_truncated(
    version: i32,
    services: u64,
    timestamp: i64,
    addrs: Seq<u8>,
    nonce: u64,
    user_agent: Seq<u8>,
    height: i32,
    after: Seq<u8>,
    k: int,
)
    requires
        addrs.len() == 52,
        user_agent.len() <= usize::MAX,
        0 <= k < 84 + crate::encoding::varint_bytes(user_agent.len() as u64).len() + user_agent.len(),
    ensures
        ({
            let t = peer_version_bytes(version, services, timestamp, addrs, nonce, user_agent, height, after).take(k);
            let start = 80 + crate::encoding::varint_bytes(user_agent.len() as u64).len();
            &&& k < start ==> crate::node::peer_info_of(t) is None
            &&& start <= k ==> crate::node::peer_info_of(t) == Some(
                crate::node::PeerInfoModel {
                    protocol_version: version,
                    user_agent: utf8_lossy(user_agent.take(crate::inventory::min_nat((k - start) as nat, user_agent.len()) as int)),
                    start_height: 0,
                    services: "0x"@ + hex_upper_fixed(services as nat, 16),
                },
            )
        }),
{
    crate::encoding::lemma_pow256_values();
    let p = peer_version_bytes(version, services, timestamp, addrs, nonce, user_agent, height, after);
    let t = p.take(k);
    let n = user_agent.len() as u64;
    let vb = crate::encoding::varint_bytes(n);
    let v4 = le_bytes((version as u32) as nat, 4);
    let s8 = le_bytes(services as nat, 8);
    crate::encoding::lemma_le_roundtrip((version as u32) as nat, 4);
    crate::encoding::lemma_le_roundtrip(services as nat, 8);
    crate::encoding::lemma_le_bytes_len((timestamp as u64) as nat, 8);
    crate::encoding::lemma_le_bytes_len(nonce as nat, 8);
    crate::encoding::lemma_le_bytes_len((height as u32) as nat, 4);
    let head = v4 + s8 + le_bytes((timestamp as u64) as nat, 8) + addrs + le_bytes(nonce as nat, 8);
    let rest = user_agent + le_bytes((height as u32) as nat, 4) + after;
    assert(head.len() == 80);
    assert(p =~= head + vb + rest);
    crate::encoding::lemma_varint_roundtrip(n, head, rest);
    let v: int = vb.len() as int;
    assert((n as usize) as int == user_agent.len());
    assert(((version as u32) as i32) == version) by (bit_vector);
    if k >= 80 && k < 80 + v {
        if varint_decode(t, 80) is Ok {
            crate::encoding::lemma_varint_extend(t, p.skip(k), 80);
            assert(t + p.skip(k) =~= p);
        }
    } else if k >= 80 + v {
        assert(t =~= head + vb + rest.take(k - 80 - v));
        crate::encoding::lemma_varint_roundtrip(n, head, rest.take(k - 80 - v));
        let m = crate::inventory::min_nat((k - 80 - v) as nat, user_agent.len()) as int;
        assert(t.subrange(80 + v, 80 + v + m) =~= user_agent.take(m));
        assert(t.subrange(0, 4) =~= v4);
        assert(t.subrange(4, 12) =~= s8);
    }
}

} // verus!

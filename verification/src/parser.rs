//! Decisions of the message reader: which headers are acceptable, and which
//! payloads match the checksum their header announces.

use vstd::prelude::*;
use crate::crypto::{double_sha256, double_sha256_of};
use crate::message::{MessageHeader, HeaderModel, header_decode, header_for, message_bytes, checksum_of, command_name, lemma_message_frame};
use crate::text::{decimal, push_decimal, utf8_lossy, same_outcome};

verus! {

/// Largest payload the reader accepts (32 MiB).
pub const MAX_PAYLOAD_LEN: u32 = 33554432;

/// A complete message whose payload matched its header's checksum.
#[derive(Debug)]
pub struct BitcoinMessage {
    pub header: MessageHeader,
    pub payload: Vec<u8>,
    pub command: String,
}

/// Whether a header is acceptable on network `magic`: the payload length to
/// read next, or the reason the stream cannot be trusted.
pub open spec fn header_check(h: HeaderModel, magic: Seq<u8>) -> Result<usize, Seq<char>> {
    if h.magic != magic {
        Err("Magic bytes mismatch — possible wrong network or parser desync"@)
    } else if h.length > MAX_PAYLOAD_LEN {
        Err("Payload claims to be "@ + decimal(h.length as nat) + " bytes — exceeds 32MB max"@)
    } else {
        Ok(h.length as usize)
    }
}

/// Checks the magic and the announced payload length of a header.
pub fn check_header(header: &MessageHeader, magic: [u8; 4]) -> (r: Result<usize, String>)
    ensures
        same_outcome(r, header_check(header@, magic@)),
{
    let mut same = true;
    let mut i: usize = 0;
    while i < 4
        invariant
            i <= 4,
            same <==> forall|j: int| 0 <= j < i ==> header.magic@[j] == magic@[j],
        decreases 4 - i,
    {
        if header.magic[i] != magic[i] {
            same = false;
        }
        i = i + 1;
    }
    if !same {
        assert(header@.magic != magic@);
        return Err("Magic bytes mismatch — possible wrong network or parser desync".to_owned());
    }
    assert(header@.magic =~= magic@);
    if header.length > MAX_PAYLOAD_LEN {
        let mut msg = "Payload claims to be ".to_owned();
        push_decimal(&mut msg, header.length as u64);
        msg.append(" bytes — exceeds 32MB max");
        return Err(msg);
    }
    Ok(header.length as usize)
}

/// Whether the first four bytes of `digest` are the header's checksum.
pub open spec fn checksum_matches(h: HeaderModel, digest: Seq<u8>) -> bool {
    Seq::new(4, |i: int| digest[i]) == h.checksum
}

/// Accepts `payload` under `header` when the double SHA-256 `digest` of the
/// payload starts with the header's checksum; otherwise the message is dropped.
pub fn accept_with_digest(header: MessageHeader, payload: Vec<u8>, digest: [u8; 32]) -> (r: Option<BitcoinMessage>)
    ensures
        r is Some <==> checksum_matches(header@, digest@),
        r matches Some(m) ==> {
            &&& m.header@ == header@
            &&& m.payload@ == payload@
            &&& m.command@ == utf8_lossy(command_name(header@.command))
        },
{
    let mut same = true;
    let mut i: usize = 0;
    while i < 4
        invariant
            i <= 4,
            same <==> forall|j: int| 0 <= j < i ==> digest@[j] == header.checksum@[j],
        decreases 4 - i,
    {
        if digest[i] != header.checksum[i] {
            same = false;
        }
        i = i + 1;
    }
    if same {
        assert(Seq::new(4, |i: int| digest@[i]) =~= header@.checksum);
        let command = header.command_string();
        Some(BitcoinMessage { header, payload, command })
    } else {
        assert(!checksum_matches(header@, digest@)) by {
            if checksum_matches(header@, digest@) {
                let j = choose|j: int| 0 <= j < 4 && digest@[j] != header.checksum@[j];
                assert(Seq::new(4, |i: int| digest@[i])[j] == header@.checksum[j]);
            }
        }
        None
    }
}

/// Accepts `payload` under `header` when the payload's checksum matches.
pub fn accept_payload(header: MessageHeader, payload: Vec<u8>) -> (r: Option<BitcoinMessage>)
    ensures
        r is Some <==> checksum_of(payload@) == header@.checksum,
        r matches Some(m) ==> {
            &&& m.header@ == header@
            &&& m.payload@ == payload@
            &&& m.command@ == utf8_lossy(command_name(header@.command))
        },
{
    let digest = double_sha256(payload.as_slice());
    accept_with_digest(header, payload, digest)
}

/// A message framed by `build_message` passes every check of the reader on
/// the same network, as long as its payload is within the size limit: its
/// header decodes, the announced length is the payload's, the bytes after
/// the header are the payload, and their checksum matches.
pub proof fn lemma_built_message_accepted(name: Seq<u8>, payload: Seq<u8>, magic: Seq<u8>)
    requires
        magic.len() == 4,
        payload.len() <= MAX_PAYLOAD_LEN,
    ensures
        ({
            let m = message_bytes(name, payload, magic);
            let h = header_for(name, payload.len(), double_sha256_of(payload), magic);
            &&& header_decode(m) == Ok::<HeaderModel, Seq<char>>(h)
            &&& header_check(h, magic) == Ok::<usize, Seq<char>>(payload.len() as usize)
            &&& m.subrange(24, 24 + payload.len() as int) == payload
            &&& checksum_of(m.subrange(24, 24 + payload.len() as int)) == h.checksum
        }),
{
    lemma_message_frame(name, payload, magic);
    let m = message_bytes(name, payload, magic);
    assert(m.subrange(24, 24 + payload.len() as int) =~= m.skip(24));
}

} // verus!

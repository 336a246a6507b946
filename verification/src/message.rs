//! The 24-byte Bitcoin message header and message framing.
//!
//! ```text
//! magic (4) | command (12, NUL-padded) | length (4, LE) | checksum (4) | payload
//! ```

use vstd::prelude::*;
use crate::crypto::{double_sha256, double_sha256_of};
use crate::encoding::{le_bytes, le_value, push_le, read_le, append_bytes, lemma_le_roundtrip, lemma_pow256_values, lemma_le_bytes_len};
use crate::text::{decimal, push_decimal, utf8_lossy, from_utf8_lossy};

verus! {

/// Network magic of testnet3.
pub const MAGIC_TESTNET: [u8; 4] = [0x0B, 0x11, 0x09, 0x07];

/// A Bitcoin P2P message header.
#[derive(Debug, Clone)]
pub struct MessageHeader {
    pub magic: [u8; 4],
    pub command: [u8; 12],
    pub length: u32,
    pub checksum: [u8; 4],
}

/// The fields of a header as byte sequences.
pub struct HeaderModel {
    pub magic: Seq<u8>,
    pub command: Seq<u8>,
    pub length: u32,
    pub checksum: Seq<u8>,
}

impl View for MessageHeader {
    type V = HeaderModel;

    open spec fn view(&self) -> HeaderModel {
        HeaderModel {
            magic: self.magic@,
            command: self.command@,
            length: self.length,
            checksum: self.checksum@,
        }
    }
}

/// The field widths of a header hold.
pub open spec fn header_model_wf(h: HeaderModel) -> bool {
    &&& h.magic.len() == 4
    &&& h.command.len() == 12
    &&& h.checksum.len() == 4
}

/// The 12-byte command field: the first 12 bytes of the name, NUL-padded.
pub open spec fn command_field(name: Seq<u8>) -> Seq<u8> {
    Seq::new(12, |i: int| if i < name.len() { name[i] } else { 0u8 })
}

/// The checksum of a payload: the first four bytes of its double SHA-256.
pub open spec fn checksum_of(payload: Seq<u8>) -> Seq<u8> {
    Seq::new(4, |i: int| double_sha256_of(payload)[i])
}

/// The header that describes `payload`, sent as `command` on network `magic`,
/// given the double SHA-256 `digest` of the payload.
pub open spec fn header_for(name: Seq<u8>, payload_len: nat, digest: Seq<u8>, magic: Seq<u8>) -> HeaderModel {
    HeaderModel {
        magic: magic,
        command: command_field(name),
        length: payload_len as u32,
        checksum: Seq::new(4, |i: int| digest[i]),
    }
}

/// The 24 serialized bytes of a header.
pub open spec fn header_bytes(h: HeaderModel) -> Seq<u8> {
    h.magic + h.command + le_bytes(h.length as nat, 4) + h.checksum
}

/// The header read from the first 24 bytes of `data`, or the message for a
/// buffer that is too short.
pub open spec fn header_decode(data: Seq<u8>) -> Result<HeaderModel, Seq<char>> {
    if data.len() < 24 {
        Err("Header too short: got "@ + decimal(data.len()) + " bytes, need 24"@)
    } else {
        Ok(
            HeaderModel {
                magic: data.subrange(0, 4),
                command: data.subrange(4, 16),
                length: le_value(data.subrange(16, 20)) as u32,
                checksum: data.subrange(20, 24),
            },
        )
    }
}

/// The command name: the command field up to its first NUL byte.
pub open spec fn command_name(field: Seq<u8>) -> Seq<u8>
    decreases field.len(),
{
    if field.len() == 0 || field[0] == 0 {
        seq![]
    } else {
        seq![field[0]] + command_name(field.drop_first())
    }
}

/// The command name is the prefix before the first NUL byte.
proof fn lemma_command_name_prefix(field: Seq<u8>, end: int)
    requires
        0 <= end <= field.len(),
        forall|j: int| 0 <= j < end ==> field[j] != 0,
        end == field.len() || field[end] == 0,
    ensures
        command_name(field) == field.take(end),
    decreases end,
{
    if end > 0 {
        lemma_command_name_prefix(field.drop_first(), end - 1);
        assert(seq![field[0]] + field.drop_first().take(end - 1) =~= field.take(end));
    } else {
        assert(field.take(0) =~= Seq::<u8>::empty());
    }
}

impl MessageHeader {
    /// Builds the header from the double SHA-256 `digest` of a payload of
    /// `payload_len` bytes.
    pub fn from_digest(command: &str, payload_len: usize, digest: [u8; 32], magic: [u8; 4]) -> (h: Self)
        ensures
            h@ == header_for(vstd::utf8::encode_utf8(command@), payload_len as nat, digest@, magic@),
    {
        let bytes = command.as_bytes();
        let n = bytes.len();
        let mut cmd_bytes = [0u8; 12];
        let mut i: usize = 0;
        while i < 12
            invariant
                i <= 12,
                n == bytes@.len(),
                bytes@ == vstd::utf8::encode_utf8(command@),
                forall|j: int| 0 <= j < i ==> cmd_bytes@[j] == command_field(bytes@)[j],
                forall|j: int| i <= j < 12 ==> cmd_bytes@[j] == 0u8,
            decreases 12 - i,
        {
            if i < n {
                cmd_bytes[i] = bytes[i];
            }
            i = i + 1;
        }
        let checksum = [digest[0], digest[1], digest[2], digest[3]];
        let h = MessageHeader { magic, command: cmd_bytes, length: payload_len as u32, checksum };
        assert(h@.command =~= command_field(vstd::utf8::encode_utf8(command@)));
        assert(h@.checksum =~= Seq::new(4, |i: int| digest@[i]));
        h
    }

    /// Builds the header that describes `payload`.
    pub fn new(command: &str, payload: &[u8], magic: [u8; 4]) -> (h: Self)
        ensures
            h@ == header_for(vstd::utf8::encode_utf8(command@), payload@.len(), double_sha256_of(payload@), magic@),
    {
        let digest = double_sha256(payload);
        Self::from_digest(command, payload.len(), digest, magic)
    }

    /// The 24 bytes of the header.
    pub fn serialize(&self) -> (buf: Vec<u8>)
        ensures
            buf@ == header_bytes(self@),
            buf@.len() == 24,
    {
        let mut buf: Vec<u8> = Vec::with_capacity(24);
        append_bytes(&mut buf, self.magic.as_slice());
        append_bytes(&mut buf, self.command.as_slice());
        push_le(&mut buf, self.length as u64, 4);
        append_bytes(&mut buf, self.checksum.as_slice());
        proof {
            lemma_le_bytes_len(self.length as nat, 4);
        }
        buf
    }

    /// Reads a header from the first 24 bytes of `data`.
    pub fn deserialize(data: &[u8]) -> (r: Result<Self, String>)
        ensures
            match r {
                Ok(h) => header_decode(data@) == Ok::<HeaderModel, Seq<char>>(h@),
                Err(e) => header_decode(data@) == Err::<HeaderModel, Seq<char>>(e@),
            },
    {
        if data.len() < 24 {
            let mut msg = "Header too short: got ".to_owned();
            push_decimal(&mut msg, data.len() as u64);
            msg.append(" bytes, need 24");
            return Err(msg);
        }
        let magic = [data[0], data[1], data[2], data[3]];
        let mut command = [0u8; 12];
        let mut i: usize = 0;
        while i < 12
            invariant
                i <= 12,
                data@.len() >= 24,
                forall|j: int| 0 <= j < i ==> command@[j] == data@[4 + j],
            decreases 12 - i,
        {
            command[i] = data[4 + i];
            i = i + 1;
        }
        let length = read_le(data, 16, 4) as u32;
        let checksum = [data[20], data[21], data[22], data[23]];
        let h = MessageHeader { magic, command, length, checksum };
        assert(h@.magic =~= data@.subrange(0, 4));
        assert(h@.command =~= data@.subrange(4, 16));
        assert(h@.checksum =~= data@.subrange(20, 24));
        Ok(h)
    }

    /// The command name, decoded from the bytes before the first NUL.
    pub fn command_string(&self) -> (s: String)
        ensures
            s@ == utf8_lossy(command_name(self.command@)),
    {
        let mut end: usize = 0;
        while end < 12 && self.command[end] != 0
            invariant
                end <= 12,
                forall|j: int| 0 <= j < end ==> self.command@[j] != 0,
            decreases 12 - end,
        {
            end = end + 1;
        }
        proof {
            lemma_command_name_prefix(self.command@, end as int);
        }
        let mut name: Vec<u8> = Vec::new();
        let mut k: usize = 0;
        while k < end
            invariant
                k <= end <= 12,
                name@ == self.command@.take(k as int),
            decreases end - k,
        {
            name.push(self.command[k]);
            k = k + 1;
            assert(name@ =~= self.command@.take(k as int));
        }
        from_utf8_lossy(name.as_slice())
    }
}

/// The bytes of a whole message: its header followed by the payload.
pub open spec fn message_bytes(name: Seq<u8>, payload: Seq<u8>, magic: Seq<u8>) -> Seq<u8> {
    header_bytes(header_for(name, payload.len(), double_sha256_of(payload), magic)) + payload
}

/// Frames `payload` as a complete message for `command` on network `magic`.
pub fn build_message(command: &str, payload: &[u8], magic: [u8; 4]) -> (m: Vec<u8>)
    ensures
        m@ == message_bytes(vstd::utf8::encode_utf8(command@), payload@, magic@),
{
    let header = MessageHeader::new(command, payload, magic);
    let mut message = header.serialize();
    append_bytes(&mut message, payload);
    message
}

} // verus!

verus! {

/// Reading a header back from its serialized bytes, whatever follows them,
/// gives the same header.
pub proof fn lemma_header_roundtrip(h: HeaderModel, rest: Seq<u8>)
    requires
        header_model_wf(h),
    ensures
        header_decode(header_bytes(h) + rest) == Ok::<HeaderModel, Seq<char>>(h),
{
    lemma_pow256_values();
    lemma_le_roundtrip(h.length as nat, 4);
    let data = header_bytes(h) + rest;
    assert(data.subrange(0, 4) =~= h.magic);
    assert(data.subrange(4, 16) =~= h.command);
    assert(data.subrange(16, 20) =~= le_bytes(h.length as nat, 4));
    assert(data.subrange(20, 24) =~= h.checksum);
}

/// A name of at most 12 bytes without NUL survives the padded command field.
pub proof fn lemma_command_name_of_field(name: Seq<u8>)
    requires
        name.len() <= 12,
        forall|i: int| 0 <= i < name.len() ==> name[i] != 0,
    ensures
        command_name(command_field(name)) == name,
{
    lemma_command_name_prefix(command_field(name), name.len() as int);
    assert(command_field(name).take(name.len() as int) =~= name);
}

/// A framed message starts with a header that describes its payload and
/// carries the payload unchanged after the 24 header bytes; the header's
/// command name is the command it was built with when that name is at most
/// 12 bytes and holds no NUL.
pub proof fn lemma_message_frame(name: Seq<u8>, payload: Seq<u8>, magic: Seq<u8>)
    requires
        magic.len() == 4,
    ensures
        header_decode(message_bytes(name, payload, magic)) == Ok::<HeaderModel, Seq<char>>(
            header_for(name, payload.len(), double_sha256_of(payload), magic),
        ),
        message_bytes(name, payload, magic).skip(24) == payload,
        header_for(name, payload.len(), double_sha256_of(payload), magic).checksum
            == checksum_of(payload),
        payload.len() <= u32::MAX ==> header_for(
            name,
            payload.len(),
            double_sha256_of(payload),
            magic,
        ).length == payload.len(),
        (name.len() <= 12 && forall|i: int| 0 <= i < name.len() ==> name[i] != 0) ==> command_name(
            header_for(name, payload.len(), double_sha256_of(payload), magic).command,
        ) == name,
{
    let h = header_for(name, payload.len(), double_sha256_of(payload), magic);
    lemma_le_bytes_len(h.length as nat, 4);
    lemma_header_roundtrip(h, payload);
    assert(message_bytes(name, payload, magic).skip(24) =~= payload);
    if name.len() <= 12 && forall|i: int| 0 <= i < name.len() ==> name[i] != 0 {
        lemma_command_name_of_field(name);
    }
}

} // verus!

//! Bitcoin wire encodings: little-endian integers, varints, varstrs and
//! the 26-byte `net_addr` record.

use vstd::prelude::*;

verus! {

// ── Little-endian integers ───────────────────────────────────────────────────

/// 256 to the power `w`.
pub open spec fn pow256(w: nat) -> nat
    decreases w,
{
    if w == 0 {
        1
    } else {
        256 * pow256((w - 1) as nat)
    }
}

/// The unsigned value of a little-endian byte string.
pub open spec fn le_value(bytes: Seq<u8>) -> nat
    decreases bytes.len(),
{
    if bytes.len() == 0 {
        0
    } else {
        bytes[0] as nat + 256 * le_value(bytes.drop_first())
    }
}

/// The `width` low-order bytes of `n`, least significant first.
pub open spec fn le_bytes(n: nat, width: nat) -> Seq<u8>
    decreases width,
{
    if width == 0 {
        seq![]
    } else {
        seq![(n % 256) as u8] + le_bytes(n / 256, (width - 1) as nat)
    }
}

/// Powers of 256 up to the eighth.
pub proof fn lemma_pow256_values()
    ensures
        pow256(0) == 1,
        pow256(1) == 0x100,
        pow256(2) == 0x1_0000,
        pow256(3) == 0x100_0000,
        pow256(4) == 0x1_0000_0000,
        pow256(5) == 0x100_0000_0000,
        pow256(6) == 0x1_0000_0000_0000,
        pow256(7) == 0x100_0000_0000_0000,
        pow256(8) == 0x1_0000_0000_0000_0000,
{
    reveal_with_fuel(pow256, 9);
}

/// `pow256` grows with its exponent.
pub proof fn lemma_pow256_mono(a: nat, b: nat)
    requires
        a <= b,
    ensures
        pow256(a) <= pow256(b),
    decreases b,
{
    if a < b {
        lemma_pow256_mono(a, (b - 1) as nat);
    }
}

/// Reading back the little-endian bytes of `n` gives `n`, when `n` fits.
pub proof fn lemma_le_roundtrip(n: nat, width: nat)
    requires
        n < pow256(width),
    ensures
        le_bytes(n, width).len() == width,
        le_value(le_bytes(n, width)) == n,
    decreases width,
{
    if width > 0 {
        lemma_le_roundtrip(n / 256, (width - 1) as nat);
        assert(le_bytes(n, width).drop_first() =~= le_bytes(n / 256, (width - 1) as nat));
    }
}

/// The length of `le_bytes(n, width)` is `width`.
pub proof fn lemma_le_bytes_len(n: nat, width: nat)
    ensures
        le_bytes(n, width).len() == width,
    decreases width,
{
    if width > 0 {
        lemma_le_bytes_len(n / 256, (width - 1) as nat);
    }
}

/// Reads `width` bytes at `offset` as a little-endian unsigned integer.
pub fn read_le(data: &[u8], offset: usize, width: usize) -> (v: u64)
    requires
        offset + width <= data@.len(),
        width <= 8,
    ensures
        v == le_value(data@.subrange(offset as int, offset + width)),
{
    let len = data.len();
    let mut acc: u64 = 0;
    let mut k: usize = width;
    proof {
        lemma_pow256_values();
    }
    while k > 0
        invariant
            k <= width <= 8,
            len == data@.len(),
            offset + width <= data@.len(),
            acc == le_value(data@.subrange(offset + k, offset + width)),
            acc < pow256((width - k) as nat),
            pow256(7) == 0x100_0000_0000_0000,
        decreases k,
    {
        k = k - 1;
        proof {
            lemma_pow256_mono((width - k - 1) as nat, 7);
            assert(data@.subrange(offset + k, offset + width).drop_first()
                =~= data@.subrange(offset + k + 1, offset + width));
        }
        acc = data[offset + k] as u64 + 256 * acc;
    }
    acc
}

/// Appends the `width` low-order bytes of `n`, least significant first.
pub fn push_le(v: &mut Vec<u8>, n: u64, width: usize)
    ensures
        final(v)@ == old(v)@ + le_bytes(n as nat, width as nat),
{
    let ghost start = v@;
    let mut m: u64 = n;
    let mut i: usize = 0;
    while i < width
        invariant
            i <= width,
            start + le_bytes(n as nat, width as nat) == v@ + le_bytes(m as nat, (width - i) as nat),
        decreases width - i,
    {
        let ghost before = v@;
        v.push((m % 256) as u8);
        proof {
            assert(before + le_bytes(m as nat, (width - i) as nat)
                =~= v@ + le_bytes((m / 256) as nat, (width - i - 1) as nat));
        }
        m = m / 256;
        i = i + 1;
    }
    assert(v@ + le_bytes(m as nat, 0) =~= v@);
}

/// Appends every byte of `bytes`.
pub fn append_bytes(v: &mut Vec<u8>, bytes: &[u8])
    ensures
        final(v)@ == old(v)@ + bytes@,
{
    let ghost start = v@;
    let n = bytes.len();
    for i in 0..n
        invariant
            n == bytes@.len(),
            v@ == start + bytes@.take(i as int),
    {
        v.push(bytes[i]);
        assert(start + bytes@.take(i + 1) =~= start + bytes@.take(i as int) + seq![bytes@[i as int]]);
    }
    assert(bytes@.take(n as int) =~= bytes@);
}

} // verus!

verus! {

// ── Varints ──────────────────────────────────────────────────────────────────

/// The canonical varint encoding of `n`: one byte below 0xFD, otherwise a
/// tag (0xFD, 0xFE, 0xFF) followed by 2, 4 or 8 little-endian bytes.
pub open spec fn varint_bytes(n: u64) -> Seq<u8> {
    if n < 0xFD {
        seq![n as u8]
    } else if n <= 0xFFFF {
        seq![0xFDu8] + le_bytes(n as nat, 2)
    } else if n <= 0xFFFF_FFFF {
        seq![0xFEu8] + le_bytes(n as nat, 4)
    } else {
        seq![0xFFu8] + le_bytes(n as nat, 8)
    }
}

/// Decoding of the varint at `offset`: the value and the number of bytes it
/// occupies, or the message for the kind of truncation found.
pub open spec fn varint_decode(data: Seq<u8>, offset: int) -> Result<(u64, usize), Seq<char>> {
    if offset >= data.len() {
        Err("Buffer too short for varint"@)
    } else if data[offset] < 0xFD {
        Ok((data[offset] as u64, 1usize))
    } else if data[offset] == 0xFD {
        if offset + 3 > data.len() {
            Err("Buffer too short for 2-byte varint"@)
        } else {
            Ok((le_value(data.subrange(offset + 1, offset + 3)) as u64, 3usize))
        }
    } else if data[offset] == 0xFE {
        if offset + 5 > data.len() {
            Err("Buffer too short for 4-byte varint"@)
        } else {
            Ok((le_value(data.subrange(offset + 1, offset + 5)) as u64, 5usize))
        }
    } else {
        if offset + 9 > data.len() {
            Err("Buffer too short for 8-byte varint"@)
        } else {
            Ok((le_value(data.subrange(offset + 1, offset + 9)) as u64, 9usize))
        }
    }
}

/// Encodes a u64 value as a Bitcoin varint.
pub fn encode_varint(n: u64) -> (v: Vec<u8>)
    ensures
        v@ == varint_bytes(n),
{
    let mut v: Vec<u8> = Vec::new();
    if n < 0xFD {
        v.push(n as u8);
        assert(v@ =~= varint_bytes(n));
    } else if n <= 0xFFFF {
        v.push(0xFD);
        push_le(&mut v, n, 2);
        assert(v@ =~= varint_bytes(n));
    } else if n <= 0xFFFF_FFFF {
        v.push(0xFE);
        push_le(&mut v, n, 4);
        assert(v@ =~= varint_bytes(n));
    } else {
        v.push(0xFF);
        push_le(&mut v, n, 8);
        assert(v@ =~= varint_bytes(n));
    }
    v
}

/// Decodes the varint that starts at `offset`, returning its value and the
/// number of bytes it occupies.
pub fn decode_varint(data: &[u8], offset: usize) -> (r: Result<(u64, usize), String>)
    ensures
        crate::text::same_outcome(r, varint_decode(data@, offset as int)),
{
    let len = data.len();
    if offset >= len {
        return Err("Buffer too short for varint".to_owned());
    }
    let tag = data[offset];
    if tag < 0xFD {
        Ok((tag as u64, 1))
    } else if tag == 0xFD {
        if len - offset < 3 {
            return Err("Buffer too short for 2-byte varint".to_owned());
        }
        Ok((read_le(data, offset + 1, 2), 3))
    } else if tag == 0xFE {
        if len - offset < 5 {
            return Err("Buffer too short for 4-byte varint".to_owned());
        }
        Ok((read_le(data, offset + 1, 4), 5))
    } else {
        if len - offset < 9 {
            return Err("Buffer too short for 8-byte varint".to_owned());
        }
        Ok((read_le(data, offset + 1, 8), 9))
    }
}

/// Decoding the encoding of any value, wherever it stands in a buffer and
/// whatever follows it, gives back that value and the encoding's length.
pub proof fn lemma_varint_roundtrip(n: u64, prefix: Seq<u8>, suffix: Seq<u8>)
    ensures
        varint_decode(prefix + varint_bytes(n) + suffix, prefix.len() as int)
            == Ok::<(u64, usize), Seq<char>>((n, varint_bytes(n).len() as usize)),
        varint_bytes(n).len() == (if n < 0xFD { 1int } else if n <= 0xFFFF { 3int } else if n
            <= 0xFFFF_FFFF { 5int } else { 9int }),
{
    lemma_pow256_values();
    let data = prefix + varint_bytes(n) + suffix;
    let o = prefix.len() as int;
    if n < 0xFD {
        assert(data[o] == n as u8);
    } else if n <= 0xFFFF {
        lemma_le_roundtrip(n as nat, 2);
        assert(data.subrange(o + 1, o + 3) =~= le_bytes(n as nat, 2));
    } else if n <= 0xFFFF_FFFF {
        lemma_le_roundtrip(n as nat, 4);
        assert(data.subrange(o + 1, o + 5) =~= le_bytes(n as nat, 4));
    } else {
        lemma_le_roundtrip(n as nat, 8);
        assert(data.subrange(o + 1, o + 9) =~= le_bytes(n as nat, 8));
    }
}

} // verus!

verus! {

// ── Varstr and net_addr ──────────────────────────────────────────────────────

/// A string's UTF-8 bytes preceded by their count as a varint.
pub open spec fn varstr_bytes(s: Seq<char>) -> Seq<u8> {
    varint_bytes(vstd::utf8::encode_utf8(s).len() as u64) + vstd::utf8::encode_utf8(s)
}

/// Encodes a string as a variable-length string (varstr).
pub fn encode_varstr(s: &str) -> (v: Vec<u8>)
    ensures
        v@ == varstr_bytes(s@),
{
    let bytes = s.as_bytes();
    let mut v = encode_varint(bytes.len() as u64);
    append_bytes(&mut v, bytes);
    v
}

/// The 26-byte `net_addr` record: services (8 bytes, little-endian), the
/// IPv4-mapped IPv6 form of `ip` (16 bytes) and the port (2 bytes, big-endian).
pub open spec fn net_addr_bytes(services: u64, ip: Seq<u8>, port: u16) -> Seq<u8> {
    le_bytes(services as nat, 8) + Seq::new(10, |i: int| 0u8) + seq![0xFFu8, 0xFFu8] + ip + seq![
        (port / 256) as u8,
        (port % 256) as u8,
    ]
}

/// Encodes services, IP and port into the 26-byte Bitcoin net_addr format.
pub fn encode_net_addr(services: u64, ip: [u8; 4], port: u16) -> (v: Vec<u8>)
    ensures
        v@ == net_addr_bytes(services, ip@, port),
        v@.len() == 26,
{
    let mut v: Vec<u8> = Vec::with_capacity(26);
    push_le(&mut v, services, 8);
    let mut i: usize = 0;
    while i < 10
        invariant
            i <= 10,
            v@ == le_bytes(services as nat, 8) + Seq::new(i as nat, |j: int| 0u8),
        decreases 10 - i,
    {
        v.push(0);
        i = i + 1;
        assert(v@ =~= le_bytes(services as nat, 8) + Seq::new(i as nat, |j: int| 0u8));
    }
    v.push(0xFF);
    v.push(0xFF);
    append_bytes(&mut v, ip.as_slice());
    v.push((port / 256) as u8);
    v.push((port % 256) as u8);
    proof {
        lemma_le_bytes_len(services as nat, 8);
    }
    assert(v@ =~= net_addr_bytes(services, ip@, port));
    v
}

} // verus!

verus! {

/// A copy of the bytes `data[start..end]`.
pub fn copy_range(data: &[u8], start: usize, end: usize) -> (v: Vec<u8>)
    requires
        start <= end <= data@.len(),
    ensures
        v@ == data@.subrange(start as int, end as int),
{
    let mut v: Vec<u8> = Vec::new();
    let mut i: usize = start;
    while i < end
        invariant
            start <= i <= end <= data@.len(),
            v@ == data@.subrange(start as int, i as int),
        decreases end - i,
    {
        v.push(data[i]);
        i = i + 1;
        assert(v@ =~= data@.subrange(start as int, i as int));
    }
    v
}

} // verus!

verus! {

/// Bytes appended after a varint do not change how it decodes.
pub proof fn lemma_varint_extend(data: Seq<u8>, extra: Seq<u8>, off: int)
    requires
        off >= 0,
        varint_decode(data, off) is Ok,
    ensures
        varint_decode(data + extra, off) == varint_decode(data, off),
        off + (varint_decode(data, off)->Ok_0).1 <= data.len(),
        (varint_decode(data, off)->Ok_0).1 >= 1,
{
    let d = data + extra;
    assert(d[off] == data[off]);
    if data[off] == 0xFD {
        assert(d.subrange(off + 1, off + 3) =~= data.subrange(off + 1, off + 3));
    } else if data[off] == 0xFE {
        assert(d.subrange(off + 1, off + 5) =~= data.subrange(off + 1, off + 5));
    } else if data[off] == 0xFF {
        assert(d.subrange(off + 1, off + 9) =~= data.subrange(off + 1, off + 9));
    }
}

/// The first byte of the varint of a positive number is not zero.
pub proof fn lemma_varint_first_byte(n: u64)
    ensures
        varint_bytes(n).len() >= 1,
        n > 0 ==> varint_bytes(n)[0] != 0,
{
}

} // verus!

//! Hashing and hexadecimal rendering.

use vstd::prelude::*;
use sha2::Digest;
use crate::text::{digit_str, hex_lower};

verus! {

/// The SHA-256 digest of `data` as the `sha2` crate computes it.
pub uninterp spec fn sha256_of(data: Seq<u8>) -> Seq<u8>;

/// Calls `sha2::Sha256::digest`.
/// Trusted: the 32 bytes returned are the digest named `sha256_of` of the input.
#[verifier::external_body]
fn sha256(data: &[u8]) -> (digest: [u8; 32])
    ensures
        digest@ == sha256_of(data@),
{
    sha2::Sha256::digest(data).into()
}

/// SHA-256 applied twice.
pub open spec fn double_sha256_of(data: Seq<u8>) -> Seq<u8> {
    sha256_of(sha256_of(data))
}

/// Computes SHA-256(SHA-256(data)).
pub fn double_sha256(data: &[u8]) -> (hash: [u8; 32])
    ensures
        hash@ == double_sha256_of(data@),
{
    let first = sha256(data);
    sha256(first.as_slice())
}

/// Encodes a byte slice as a lower-case hexadecimal string.
pub fn hex_encode(bytes: &[u8]) -> (s: String)
    ensures
        s@ == hex_lower(bytes@),
{
    let mut s = String::new();
    let n = bytes.len();
    for i in 0..n
        invariant
            n == bytes@.len(),
            s@ == hex_lower(bytes@.take(i as int)),
    {
        let b = bytes[i];
        s.append(digit_str(b / 16, false));
        s.append(digit_str(b % 16, false));
        assert(bytes@.take(i + 1).drop_last() =~= bytes@.take(i as int));
    }
    assert(bytes@.take(n as int) =~= bytes@);
    s
}

} // verus!

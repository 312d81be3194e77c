//! SHA-256 digests (from the `sha2` crate) and their lower-case hex form.

use vstd::prelude::*;

use crate::text::{hex_chars, hex_of, string_of};

verus! {

/// The SHA-256 digest of a byte string, as the `sha2` crate computes it.
pub uninterp spec fn sha256_digest(data: Seq<u8>) -> Seq<u8>;

/// `sha2::Sha256::digest`.
///
/// Trusted: the result is the crate's SHA-256 of `data`, named `sha256_digest`;
/// the digest is 32 bytes long (the output size of `Sha256` is `U32`).
#[verifier::external_body]
pub(crate) fn sha256(data: &[u8]) -> (r: Vec<u8>)
    ensures
        r@ == sha256_digest(data@),
        r@.len() == 32,
{
    <sha2::Sha256 as sha2::Digest>::digest(data).to_vec()
}

/// Lower-case hex of a byte string (`format!("{byte:02x}")` per byte).
pub fn hex_digest(bytes: &[u8]) -> (s: String)
    ensures
        s@ == hex_of(bytes@),
        s@.len() == 2 * bytes@.len(),
{
    let v = hex_chars(bytes);
    string_of(&v)
}

/// The lower-case hex SHA-256 of a byte string.
pub fn sha256_hex(data: &[u8]) -> (s: String)
    ensures
        s@ == hex_of(sha256_digest(data@)),
        s@.len() == 64,
{
    let d = sha256(data);
    hex_digest(d.as_slice())
}

} // verus!

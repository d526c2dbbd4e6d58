use vstd::prelude::*;
use sha2::Digest;

use crate::consts::HASH_SIZE;

verus! {

/// The digest a SHA-256 computation assigns to a byte sequence. The value
/// is determined by the bytes alone; what it is on given bytes is left to
/// the hash function itself.
pub uninterp spec fn sha256_of(message: Seq<u8>) -> Seq<u8>;

/// Relies on sha2::Sha256: a pure function of the input bytes, producing a
/// 32-byte digest.
#[verifier::external_body]
pub fn sha256(message: &[u8]) -> (r: [u8; HASH_SIZE])
    ensures
        r@ == sha256_of(message@),
{
    let mut context = sha2::Sha256::new();
    context.update(message);
    let mut result: [u8; HASH_SIZE] = [0; HASH_SIZE];
    result.copy_from_slice(context.finalize().as_slice());
    result
}

} // verus!

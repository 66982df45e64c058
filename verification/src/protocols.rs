//! Block and sequence hashes shared by publishers and routers.

use vstd::bytes::{spec_u64_to_le_bytes, u64_to_le_bytes};
use vstd::prelude::*;
use xxhash_rust::xxh3::Xxh3;

verus! {

/// Seed of every block and sequence hash.
pub const XXH3_SEED: u64 = 1337;

/// The hash of one block of tokens, taken without regard to what precedes it.
#[derive(Clone, Copy, Debug, PartialEq, Eq, Structural)]
pub struct LocalBlockHash(pub u64);

/// The 64-bit XXH3 digest of `data` under `seed`.
pub uninterp spec fn xxh3_64(data: Seq<u8>, seed: u64) -> u64;

/// Digests `data` with `xxhash_rust::xxh3::Xxh3`: a hasher made by
/// `Xxh3::with_seed`, one `update` with all of `data`, then `digest`. The
/// digest is taken to be a function of the bytes and the seed alone.
#[verifier::external_body]
pub(crate) fn xxh3_digest(data: &[u8], seed: u64) -> (digest: u64)
    ensures
        digest == xxh3_64(data@, seed),
{
    let mut hasher = Xxh3::with_seed(seed);
    hasher.update(data);
    hasher.digest()
}

/// The rolling hash of a block whose parent has the rolling hash `parent`.
pub open spec fn next_seq_hash(parent: u64, tokens_hash: u64) -> u64 {
    xxh3_64(spec_u64_to_le_bytes(parent) + spec_u64_to_le_bytes(tokens_hash), XXH3_SEED)
}

/// Extends a rolling sequence hash by one block: the digest of the parent's
/// hash and the block's own hash, both little-endian.
pub fn compute_next_seq_hash(parent: u64, current: LocalBlockHash) -> (hash: u64)
    ensures
        hash == next_seq_hash(parent, current.0),
{
    let mut bytes = u64_to_le_bytes(parent);
    let mut tail = u64_to_le_bytes(current.0);
    bytes.append(&mut tail);
    xxh3_digest(bytes.as_slice(), XXH3_SEED)
}

} // verus!

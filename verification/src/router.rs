//! Deterministic routing of entry ids to shard indices.
use vstd::prelude::*;
use vstd::string::StringSliceAdditionalSpecFns;
use vstd::utf8::encode_utf8;
use crate::hashing::{calculate_hash, hash_of};

verus! {

/// The shard index an id selects: the 64-bit hash space is divided into
/// `shard_count` contiguous buckets of equal width, and the index is the
/// bucket the id's hash falls in; the last bucket also absorbs the few
/// hashes past `shard_count` equal buckets.
pub open spec fn route_spec(id: Seq<char>, shard_count: int) -> int
    recommends
        shard_count >= 1,
{
    let bucket = u64::MAX as int / shard_count;
    let q = hash_of(encode_utf8(id)) as int / bucket;
    if q >= shard_count {
        shard_count - 1
    } else {
        q
    }
}

/// Routing is a pure function of the id and the shard count — equal ids
/// always route to the same index — and the index is always in
/// `[0, shard_count)`.
pub proof fn lemma_route_in_range(id: Seq<char>, shard_count: int)
    requires
        1 <= shard_count <= u64::MAX as int,
    ensures
        0 <= route_spec(id, shard_count) < shard_count,
{
    let bucket = u64::MAX as int / shard_count;
    vstd::arithmetic::div_mod::lemma_div_non_zero(u64::MAX as int, shard_count);
    let h = hash_of(encode_utf8(id)) as int;
    vstd::arithmetic::div_mod::lemma_div_pos_is_pos(h, bucket);
}

/// Maps an entry id to the index of the shard that owns it, within a
/// collection of `shard_count` shards.
pub fn route(id: &str, shard_count: usize) -> (idx: usize)
    requires
        1 <= shard_count,
    ensures
        idx == route_spec(id@, shard_count as int),
        idx < shard_count,
{
    let h = calculate_hash(id);
    let bucket: u64 = u64::MAX / (shard_count as u64);
    proof {
        vstd::arithmetic::div_mod::lemma_div_non_zero(u64::MAX as int, shard_count as int);
    }
    let q = h / bucket;
    if q >= shard_count as u64 {
        shard_count - 1
    } else {
        proof {
            lemma_route_in_range(id@, shard_count as int);
        }
        q as usize
    }
}

} // verus!

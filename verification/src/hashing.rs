//! Stable in-process hashing of entry ids.
use vstd::prelude::*;
use std::collections::hash_map::DefaultHasher;
use std::hash::Hasher;
use vstd::std_specs::hash::DefaultHasherAdditionalSpecFns;
use vstd::string::StringSliceAdditionalSpecFns;

verus! {

/// The hash of one byte string, as `DefaultHasher` computes it over a
/// single `write` of the whole string.
pub open spec fn hash_of(bytes: Seq<u8>) -> u64 {
    DefaultHasher::spec_finish(seq![bytes])
}

/// Hashes an entry id to a 64-bit value. Deterministic for the duration
/// of a process run: the result is a function of the id's bytes alone.
pub fn calculate_hash(t: &str) -> (r: u64)
    ensures
        r == hash_of(t.spec_bytes()),
{
    let mut s = DefaultHasher::new();
    s.write(t.as_bytes());
    let r = s.finish();
    proof {
        assert(s@ =~= seq![t.spec_bytes()]);
    }
    r
}

} // verus!

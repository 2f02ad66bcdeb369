//! Routing and hashing: determinism, range, and rough uniformity.
use ruko_server::{calculate_hash, route};

#[test]
fn hash_is_deterministic_within_a_process() {
    assert_eq!(calculate_hash("user-1"), calculate_hash("user-1"));
    assert_eq!(calculate_hash(""), calculate_hash(""));
}

#[test]
fn route_is_deterministic_and_in_range() {
    for count in 1..17usize {
        for i in 0..50usize {
            let id = format!("entry-{}", i);
            let a = route(&id, count);
            let b = route(&id, count);
            assert_eq!(a, b);
            assert!(a < count);
        }
    }
}

#[test]
fn route_with_one_shard_is_zero() {
    assert_eq!(route("anything", 1), 0);
    assert_eq!(route("", 1), 0);
}

#[test]
fn route_spreads_ids_roughly_uniformly() {
    let shard_count = 4usize;
    let mut buckets = vec![0usize; shard_count];
    for i in 0..1000usize {
        let id = format!("distinct-id-{}", i);
        buckets[route(&id, shard_count)] += 1;
    }
    // 1000 ids over 4 shards: expect about 250 each; demand a loose floor.
    for (i, count) in buckets.iter().enumerate() {
        assert!(
            *count >= 100,
            "shard {} received only {} of 1000 ids",
            i,
            count
        );
    }
}

use pagestore::{shard_of, CacheShard, Lookup, RetrieveError, CACHE_SHARDS};

#[test]
fn first_get_loads_then_others_join() {
    let mut shard = CacheShard::new(4);
    assert!(matches!(shard.get(9), Lookup::Load));
    for _ in 0..5 {
        assert!(matches!(shard.get(9), Lookup::Join));
    }
    shard.finish(9, &Ok(vec![1, 2, 3]));
    match shard.get(9) {
        Lookup::Cached(v) => assert_eq!(v, vec![1, 2, 3]),
        _ => panic!("expected a hit"),
    }
}

#[test]
fn failed_load_is_not_cached() {
    let mut shard = CacheShard::new(4);
    assert!(matches!(shard.get(1), Lookup::Load));
    shard.finish(1, &Err(RetrieveError::OutOfPages));
    assert!(matches!(shard.get(1), Lookup::Load));
    shard.finish(1, &Ok(vec![5]));
    assert!(matches!(shard.get(1), Lookup::Cached(_)));
}

#[test]
fn least_recent_entry_is_evicted() {
    let mut shard = CacheShard::new(2);
    for k in [1u64, 2] {
        assert!(matches!(shard.get(k), Lookup::Load));
        shard.finish(k, &Ok(vec![k as u8]));
    }
    assert!(matches!(shard.get(1), Lookup::Cached(_)));
    assert!(matches!(shard.get(3), Lookup::Load));
    shard.finish(3, &Ok(vec![3]));
    assert!(matches!(shard.get(2), Lookup::Load));
    assert!(matches!(shard.get(1), Lookup::Cached(_)));
    assert!(matches!(shard.get(3), Lookup::Cached(_)));
}

#[test]
fn shards_split_by_index() {
    assert_eq!(CACHE_SHARDS, 64);
    assert_eq!(shard_of(0), 0);
    assert_eq!(shard_of(65), 1);
    assert_eq!(shard_of(u64::MAX), 63);
}

use dual_cache::dual::DualCache;

const TTL: u64 = 1_000_000;

#[test]
fn read_hits_the_committed_snapshot_and_signals() {
    let (cache, rx) = DualCache::new(8);
    cache.insert(7, 70, TTL);
    cache.commit();
    assert_eq!(cache.get(7), Some(70));
    assert_eq!(rx.try_recv(), Ok(7), "a hit must be reported to the signal queue");
    assert_eq!(cache.get(99), None);
    assert!(rx.try_recv().is_err(), "a miss must not be reported");
}

#[test]
fn mirror_isolates_readers_until_commit() {
    let (cache, _rx) = DualCache::new(32);
    cache.insert(1, 100, TTL);
    cache.commit();
    assert_eq!(cache.get(1), Some(100));

    cache.update(1, 200);
    for k in 2..12u64 {
        cache.insert(k, k * 10, TTL);
    }
    // the reader still observes the old snapshot
    assert_eq!(cache.get(1), Some(100));
    assert_eq!(cache.get(5), None);

    cache.commit();
    assert_eq!(cache.get(1), Some(200));
    assert_eq!(cache.get(5), Some(50));
}

#[test]
fn drained_signals_promote_on_the_write_side() {
    let (cache, rx) = DualCache::new(8);
    for k in 0..5u64 {
        cache.insert(k, k, TTL);
    }
    cache.commit();
    for _ in 0..3 {
        assert_eq!(cache.get(4), Some(4));
        let key = rx.try_recv().expect("each hit must queue exactly one signal");
        assert_eq!(key, 4);
        assert!(rx.try_recv().is_err(), "one read, one signal");
        cache.process_read_signal(key);
        cache.commit();
    }
    assert_eq!(cache.get(4), Some(4), "promotion must not lose the entry");
}

#[test]
fn delete_reaches_readers_only_through_commit() {
    let (cache, _rx) = DualCache::new(8);
    cache.insert(3, 30, TTL);
    cache.commit();
    cache.delete(3);
    assert_eq!(cache.get(3), Some(30), "the mirror still holds the deleted key");
    cache.commit();
    assert_eq!(cache.get(3), None);
}

#[test]
fn maintenance_decay_and_sweep_run_under_the_lock() {
    let (cache, _rx) = DualCache::new(8);
    for k in 0..4u64 {
        cache.insert(k, k, TTL);
    }
    cache.maintenance();
    cache.decay();
    cache.sweep_expired(u64::MAX);
    cache.commit();
    for k in 0..4u64 {
        assert_eq!(cache.get(k), None, "a sweep at the end of time deletes everything");
    }
}

#[test]
fn drain_signals_consumes_what_the_reads_queued() {
    let (cache, rx) = DualCache::new(8);
    for k in 0..3u64 {
        cache.insert(k, k + 100, TTL);
    }
    cache.commit();
    assert_eq!(cache.get(0), Some(100));
    assert_eq!(cache.get(2), Some(102));
    assert_eq!(cache.drain_signals(&rx, 10), 2);
    assert_eq!(cache.drain_signals(&rx, 10), 0, "the queue was emptied");
    cache.get(1);
    cache.get(1);
    cache.get(1);
    assert_eq!(cache.drain_signals(&rx, 2), 2, "one call drains at most its bound");
    assert_eq!(cache.drain_signals(&rx, 2), 1);
}

#[test]
fn fresh_cache_reads_empty() {
    let (cache, _rx) = DualCache::new(4);
    assert_eq!(cache.get(0), None);
    cache.commit();
    assert_eq!(cache.get(0), None);
}

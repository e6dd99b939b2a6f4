use dual_cache::cache::Cache;

const FAR: u64 = 1_000_000;

fn filled(capacity: usize, keys: &[u64]) -> Cache {
    let mut c = Cache::new(capacity);
    for &k in keys {
        c.gatsby_insert(k, k * 10, FAR, 0);
    }
    c
}

fn check_agreement(c: &Cache) {
    for (k, &i) in c.index.iter() {
        assert!(i < c.arena.len(), "index entry out of bounds");
        assert_eq!(c.arena[i].key, *k, "index entry points at a foreign key");
    }
    for (i, n) in c.arena.iter().enumerate() {
        assert_eq!(c.index.get(&n.key), Some(&i), "slot not indexed at its position");
    }
}

fn counter_total(c: &Cache) -> u64 {
    c.arena.iter().map(|n| n.counter).sum()
}

#[test]
fn viscous_climb_moves_one_rank_per_hit() {
    let mut c = filled(5, &[0, 1, 2, 3, 4]);
    assert_eq!(c.index[&4], 4);
    for expected in [3usize, 2, 1] {
        c.viscous_climb(4, 0);
        assert_eq!(c.index[&4], expected, "one hit must buy exactly one rank");
        check_agreement(&c);
    }
    assert!(c.index[&4] >= 1, "three hits from rank four must not reach the top");
    assert_eq!(c.arena[1].counter, 4, "three hits on an initial count of one");
}

#[test]
fn climb_at_top_stays_at_top() {
    let mut c = filled(3, &[7, 8]);
    c.viscous_climb(7, 0);
    assert_eq!(c.index[&7], 0);
    c.viscous_climb(7, 0);
    assert_eq!(c.index[&7], 0);
    check_agreement(&c);
}

#[test]
fn climb_on_expired_key_demotes_and_unindexes() {
    let mut c = Cache::new(8);
    for k in 0..4u64 {
        c.gatsby_insert(k, k, 10, 0);
    }
    c.evict_point = 1;
    c.viscous_climb(0, 20);
    assert!(!c.index.contains_key(&0), "expired key must leave the index");
    assert_eq!(c.arena[2].key, 0, "expired node is parked just past the membrane");
    assert_eq!(c.lookup(0), None, "tombstone reads as a miss");
    assert_eq!(c.arena.len(), 4, "the tombstone stays in the arena");
}

#[test]
fn gatsby_insert_lands_just_past_the_membrane() {
    let mut c = filled(10, &[0, 1, 2, 3, 4]);
    c.evict_point = 2;
    c.gatsby_insert(99, 990, FAR, 0);
    assert_eq!(c.index[&99], 3, "newcomer lands at evict_point + 1");
    assert_ne!(c.index[&99], c.arena.len() - 1, "newcomer is spared death row");
    assert_eq!(c.arena[3].key, 99);
    assert_eq!(c.arena[3].counter, 1, "a newcomer starts with one hit");
    check_agreement(&c);
}

#[test]
fn evicted_key_can_be_reinserted() {
    let mut c = filled(4, &[0, 1, 2, 3]);
    c.evict_point = 2;
    c.gatsby_insert(9, 90, FAR, 0);
    // keys 2 and 3 were discarded by the cliff; their index entries
    // linger as stale tombstones and read as misses
    assert_eq!(c.lookup(2), None);
    assert_eq!(c.lookup(3), None);
    // a stale entry counts as missing, so the key enters fresh and the
    // tombstone entry is retired
    c.gatsby_insert(3, 33, FAR, 0);
    assert_eq!(c.lookup(3), Some(33));
    c.gatsby_insert(2, 22, FAR, 0);
    assert_eq!(c.lookup(2), Some(22));
}

#[test]
fn insert_of_known_key_updates_in_place() {
    let mut c = filled(5, &[1, 2, 3]);
    let pos = c.index[&2];
    c.gatsby_insert(2, 777, FAR, 0);
    assert_eq!(c.index[&2], pos, "re-insert must not move the node");
    assert_eq!(c.lookup(2), Some(777));
    assert_eq!(c.arena[pos].counter, 1, "re-insert must not touch the counter");
    assert_eq!(c.arena.len(), 3);
    check_agreement(&c);
}

#[test]
fn cliff_eviction_cuts_to_the_membrane() {
    let mut c = filled(8, &[0, 1, 2, 3, 4, 5, 6, 7]);
    c.evict_point = 5;
    c.gatsby_insert(100, 1, FAR, 0);
    assert_eq!(c.arena.len(), 6, "five survivors plus the newcomer");
    for n in c.arena.iter() {
        assert!(n.key == 100 || n.key < 5, "positions five and beyond are gone");
    }
    // the discarded keys linger in the index as stale tombstones
    assert!(c.index.contains_key(&6));
    assert_eq!(c.lookup(6), None, "a tombstone is lazily read as a miss");
    assert_eq!(c.lookup(100), Some(1));
}

#[test]
fn double_swap_delete_spares_the_safe_zone() {
    let mut c = filled(6, &[10, 11, 12, 13, 14, 15]);
    c.evict_point = 2;
    let victim_count = c.arena[c.index[&12]].counter;
    let sum_before = c.counter_sum;
    c.double_swap_delete(12);
    assert_eq!(c.arena.len(), 5);
    assert_eq!(c.counter_sum, sum_before - victim_count, "the victim's counter leaves with it");
    assert_eq!(c.counter_sum, counter_total(&c), "deletion keeps the aggregate exact");
    assert_eq!(c.arena[0].key, 10, "safe zone position zero untouched");
    assert_eq!(c.arena[1].key, 11, "safe zone position one untouched");
    assert!(!c.index.contains_key(&12));
    assert_eq!(c.lookup(12), None);
    check_agreement(&c);
}

#[test]
fn delete_with_no_room_past_the_membrane_swap_removes() {
    let mut c = filled(4, &[1, 2, 3]);
    assert_eq!(c.evict_point, 4, "the membrane starts at the capacity");
    c.double_swap_delete(2);
    assert_eq!(c.arena.len(), 2);
    assert!(!c.index.contains_key(&2));
    assert_eq!(c.counter_sum, counter_total(&c), "deletion keeps the aggregate exact");
    check_agreement(&c);
}

#[test]
fn delete_of_absent_key_is_a_no_op() {
    let mut c = filled(4, &[1, 2]);
    c.double_swap_delete(9);
    assert_eq!(c.arena.len(), 2);
    check_agreement(&c);
}

#[test]
fn update_value_keeps_counter_and_rank() {
    let mut c = filled(6, &[5, 6, 7]);
    c.viscous_climb(7, 0);
    let pos = c.index[&7];
    let count = c.arena[pos].counter;
    c.update_value(7, 7777);
    assert_eq!(c.lookup(7), Some(7777), "an update followed by a read returns the new value");
    assert_eq!(c.index[&7], pos, "an update must not move the node");
    assert_eq!(c.arena[pos].counter, count, "an update must not touch the counter");
    check_agreement(&c);
}

#[test]
fn decay_halves_counters_and_recomputes_the_sum() {
    let mut c = filled(5, &[0, 1, 2, 3, 4]);
    let counts = [8u64, 4, 2, 1, 0];
    for (i, &v) in counts.iter().enumerate() {
        c.arena[i].counter = v;
    }
    c.counter_sum = 15;
    c.time_decay();
    let after: Vec<u64> = c.arena.iter().map(|n| n.counter).collect();
    assert_eq!(after, vec![4, 2, 1, 0, 0]);
    assert_eq!(c.counter_sum, 7);
    for (i, k) in [0u64, 1, 2, 3, 4].iter().enumerate() {
        assert_eq!(c.index[k], i, "decay must not move anything");
    }
    c.time_decay();
    let twice: Vec<u64> = c.arena.iter().map(|n| n.counter).collect();
    assert_eq!(twice, vec![2, 1, 0, 0, 0], "two decays leave a quarter");
}

#[test]
fn membrane_contracts_on_a_weak_boundary_and_expands_on_a_strong_one() {
    let mut c = filled(10, &[0, 1, 2]);
    // counters are all one, so the average is one
    c.update_evict_point();
    // clamp from ten to two, then a weak boundary contracts by one step
    assert_eq!(c.evict_point, 1);
    c.arena[1].counter = 10;
    c.counter_sum = 12;
    c.update_evict_point();
    // average four, boundary ten: strong, expand by one step
    assert_eq!(c.evict_point, 2);
}

#[test]
fn membrane_on_empty_arena_does_nothing() {
    let mut c = Cache::new(4);
    c.update_evict_point();
    assert_eq!(c.evict_point, 4);
}

#[test]
fn sweep_deletes_every_expired_node_it_meets() {
    let mut c = Cache::new(8);
    c.gatsby_insert(0, 0, 5, 0);
    c.gatsby_insert(1, 1, 100, 0);
    c.gatsby_insert(2, 2, 5, 0);
    c.cleanup_expired(50);
    assert_eq!(c.arena.len(), 1);
    assert_eq!(c.lookup(1), Some(1));
    assert_eq!(c.lookup(0), None);
    assert_eq!(c.lookup(2), None);
    assert_eq!(c.counter_sum, counter_total(&c), "the sweep keeps the aggregate exact");
    check_agreement(&c);
}

#[test]
fn counter_sum_stays_exact_outside_cliff_evictions() {
    let mut c = filled(6, &[0, 1, 2, 3]);
    c.viscous_climb(2, 0);
    c.viscous_climb(2, 0);
    c.update_value(3, 33);
    c.update_evict_point();
    c.double_swap_delete(2);
    assert_eq!(c.counter_sum, counter_total(&c));
}

#[test]
fn decay_repairs_the_drift_a_cliff_leaves() {
    let mut c = filled(4, &[0, 1, 2, 3]);
    c.evict_point = 2;
    c.gatsby_insert(4, 4, FAR, 0);
    // the two discarded counters still burden the aggregate
    assert!(c.counter_sum >= counter_total(&c));
    c.time_decay();
    assert_eq!(c.counter_sum, counter_total(&c));
}

#[test]
fn arena_stays_within_capacity_while_the_membrane_is_inside() {
    let mut c = Cache::new(4);
    c.evict_point = 2;
    for k in 0..12u64 {
        c.gatsby_insert(k, k, FAR, 0);
        assert!(c.arena.len() <= 4, "the arena may never outgrow the capacity");
    }
}

#[test]
fn full_arena_insert_leaves_membrane_plus_one() {
    let mut c = filled(4, &[0, 1, 2, 3]);
    c.evict_point = 2;
    c.gatsby_insert(50, 50, FAR, 0);
    assert_eq!(c.arena.len(), c.evict_point + 1);
    // after a cliff the tail is the membrane itself: that is where the
    // newcomer sits until the membrane moves again
    assert_eq!(c.index[&50], c.evict_point);
    check_agreement_after_cliff(&c);
}

// after a cliff eviction only the stale index entries break the exact
// agreement; every surviving slot must still be indexed at its position
fn check_agreement_after_cliff(c: &Cache) {
    for (i, n) in c.arena.iter().enumerate() {
        assert_eq!(c.index.get(&n.key), Some(&i));
    }
}

#[test]
fn counters_saturate_jointly_with_the_aggregate() {
    let mut c = filled(3, &[0]);
    c.counter_sum = u64::MAX;
    c.viscous_climb(0, 0);
    assert_eq!(c.arena[c.index[&0]].counter, 1, "no lone counter rises past a saturated sum");
    assert_eq!(c.counter_sum, u64::MAX);
    c.gatsby_insert(1, 1, FAR, 0);
    assert_eq!(c.arena[c.index[&1]].counter, 0, "a newcomer cannot be counted either");
    assert_eq!(c.counter_sum, u64::MAX);
}

#[test]
fn insert_timestamp_saturates_instead_of_wrapping() {
    let mut c = Cache::new(4);
    c.gatsby_insert(1, 1, u64::MAX, 5);
    let pos = c.index[&1];
    assert_eq!(c.arena[pos].time_stamp, u64::MAX);
}

//! The laws of the ranked cache, proved once and for all over the
//! transition functions of [`crate::cache`].
//!
//! Each proof function here states one guarantee of the design: the
//! capacity bound, the exactness of the aggregate counter, the
//! arena/index agreement, the one-rank climb, the newcomer's placement,
//! the invariance of value updates, the effect of decay, and the size
//! left behind by a cliff eviction.

use crate::cache::{
    bump_at, climb_step, decay_step, delete_step, halved, insert_step, lemma_delete_len,
    lemma_sum_elem_le, lemma_sum_halved_le, lemma_sum_nonneg, lemma_sum_push, lemma_sum_swap,
    lemma_sum_update, lookup_spec, membrane_step, swap_step, sweep_from, sweep_step, update_step,
    CacheModel,
};
use crate::node::Node;
use vstd::prelude::*;

verus! {

// ---------------------------------------------------------------------
// The arena never outgrows the capacity.
// ---------------------------------------------------------------------
/// A hit never changes the arena's length.
pub proof fn lemma_climb_keeps_len(m: CacheModel, k: u64, now: u64)
    ensures
        climb_step(m, k, now).arena.len() == m.arena.len(),
        climb_step(m, k, now).capacity == m.capacity,
{
}

/// Insertion keeps the arena within the capacity, as long as the
/// membrane sits strictly inside a full arena; a full arena whose
/// membrane equals the capacity has nothing at risk to discard, and
/// the newcomer then overflows by one — the single hole in the bound.
pub proof fn lemma_insert_cap(m: CacheModel, k: u64, v: u64, ttl: u64, now: u64)
    requires
        m.wf(),
        m.cap_ok(),
        m.arena.len() < m.capacity || m.evict_point < m.capacity,
    ensures
        insert_step(m, k, v, ttl, now).cap_ok(),
{
}

/// Deletion never grows the arena.
pub proof fn lemma_delete_cap(m: CacheModel, k: u64)
    ensures
        delete_step(m, k).arena.len() <= m.arena.len(),
        delete_step(m, k).capacity == m.capacity,
{
}

/// Value updates, the membrane move and decay keep the arena's length.
pub proof fn lemma_quiet_ops_keep_len(m: CacheModel, k: u64, v: u64)
    ensures
        update_step(m, k, v).arena.len() == m.arena.len(),
        membrane_step(m).arena.len() == m.arena.len(),
        decay_step(m).arena.len() == m.arena.len(),
        update_step(m, k, v).capacity == m.capacity,
        membrane_step(m).capacity == m.capacity,
        decay_step(m).capacity == m.capacity,
{
}

/// The TTL sweep never grows the arena, and touches neither the
/// membrane nor the capacity.
pub proof fn lemma_sweep_cap(m: CacheModel, now: u64, i: int)
    ensures
        sweep_from(m, now, i).arena.len() <= m.arena.len(),
        sweep_from(m, now, i).capacity == m.capacity,
        sweep_from(m, now, i).evict_point == m.evict_point,
    decreases m.arena.len() - i,
{
    if 0 <= i < m.arena.len() {
        if now > m.arena[i].time_stamp {
            let m1 = delete_step(m, m.arena[i].key);
            lemma_delete_len(m, m.arena[i].key);
            if m1.arena.len() < m.arena.len() {
                lemma_sweep_cap(m1, now, i);
            } else {
                lemma_sweep_cap(m1, now, i + 1);
            }
        } else {
            lemma_sweep_cap(m, now, i + 1);
        }
    }
}

/// The membrane never leaves `[0, capacity]`: its own move clamps
/// itself, and no other operation touches it.
pub proof fn lemma_membrane_bounds(
    m: CacheModel,
    k: u64,
    v: u64,
    ttl: u64,
    now: u64,
    a: int,
    b: int,
)
    ensures
        m.evict_point <= m.capacity ==> membrane_step(m).evict_point <= m.capacity,
        swap_step(m, a, b).evict_point == m.evict_point,
        climb_step(m, k, now).evict_point == m.evict_point,
        insert_step(m, k, v, ttl, now).evict_point == m.evict_point,
        delete_step(m, k).evict_point == m.evict_point,
        update_step(m, k, v).evict_point == m.evict_point,
        decay_step(m).evict_point == m.evict_point,
        sweep_step(m, now).evict_point == m.evict_point,
{
    lemma_sweep_cap(m, now, 0);
}

// ---------------------------------------------------------------------
// The aggregate counter is exact across every operation but the cliff:
// a cliff eviction discards a whole tail without recounting it (the
// price of O(1) truncation), and the next decay recomputes the sum.
// ---------------------------------------------------------------------
/// A swap permutes the counters, so it keeps the aggregate exact.
pub proof fn lemma_swap_sum(m: CacheModel, a: int, b: int)
    ensures
        m.sum_exact() ==> swap_step(m, a, b).sum_exact(),
{
    if !(a == b || a >= m.arena.len() || b >= m.arena.len() || a < 0 || b < 0) {
        lemma_sum_swap(m.arena, a, b);
    }
}

/// A hit keeps the aggregate exact: the node's counter and the
/// aggregate rise together and saturate together.
pub proof fn lemma_climb_sum(m: CacheModel, k: u64, now: u64)
    ensures
        m.sum_exact() ==> climb_step(m, k, now).sum_exact(),
{
    if m.sum_exact() && m.valid_at(k) {
        let i: int = m.index[k] as int;
        if m.counter_sum < u64::MAX && m.arena[i].counter < u64::MAX {
            lemma_sum_update(
                m.arena,
                i,
                Node { counter: (m.arena[i].counter + 1) as u64, ..m.arena[i] },
            );
        }
        let m1 = bump_at(m, i);
        if now > m.arena[i].time_stamp {
            if m.evict_point + 1 < m1.arena.len() {
                lemma_swap_sum(m1, i, m.evict_point + 1);
            }
        } else if i > 0 {
            lemma_swap_sum(m1, i, i - 1);
        }
    }
}

/// Insertion into a non-full arena keeps the aggregate exact: no cliff
/// eviction happens, and the newcomer's first hit is counted on both
/// sides.
pub proof fn lemma_insert_sum(m: CacheModel, k: u64, v: u64, ttl: u64, now: u64)
    requires
        m.arena.len() < m.capacity,
    ensures
        m.sum_exact() ==> insert_step(m, k, v, ttl, now).sum_exact(),
{
    if m.sum_exact() {
        if m.valid_at(k) {
            lemma_update_sum(m, k, v);
        } else {
            let c0: u64 = if m.counter_sum < u64::MAX {
                1u64
            } else {
                0u64
            };
            let ts: u64 = if now + ttl <= u64::MAX {
                (now + ttl) as u64
            } else {
                u64::MAX
            };
            let t: int = m.arena.len() as int;
            let fresh = Node { key: k, value: v, counter: c0, time_stamp: ts };
            lemma_sum_push(m.arena, fresh);
            let m1 = CacheModel {
                arena: m.arena.push(fresh),
                index: m.index.insert(k, t as usize),
                counter_sum: (m.counter_sum + c0) as u64,
                ..m
            };
            if m.evict_point + 1 < m1.arena.len() {
                lemma_swap_sum(m1, t, m.evict_point + 1);
            }
        }
    }
}

/// A value update replaces only the value field, keeping the aggregate
/// exact; the membrane move never touches the arena at all.
pub proof fn lemma_update_sum(m: CacheModel, k: u64, v: u64)
    ensures
        m.sum_exact() ==> update_step(m, k, v).sum_exact(),
        m.sum_exact() ==> membrane_step(m).sum_exact(),
{
    if m.sum_exact() && m.valid_at(k) {
        let i: int = m.index[k] as int;
        lemma_sum_update(m.arena, i, Node { value: v, ..m.arena[i] });
    }
}

/// Deletion keeps the aggregate exact: the victim's counter leaves
/// with its node.
pub proof fn lemma_delete_sum(m: CacheModel, k: u64)
    ensures
        m.sum_exact() ==> delete_step(m, k).sum_exact(),
{
    if m.sum_exact() && m.valid_at(k) {
        let i: int = m.index[k] as int;
        let len: int = m.arena.len() as int;
        if m.evict_point + 1 >= len {
            lemma_sum_update(m.arena, i, m.arena.last());
            lemma_sum_elem_le(m.arena, i);
        } else {
            let m1 = swap_step(m, i, m.evict_point + 1);
            lemma_swap_sum(m, i, m.evict_point + 1);
            lemma_swap_sum(m1, m.evict_point + 1, len - 1);
            let m2 = swap_step(m1, m.evict_point + 1, len - 1);
            lemma_sum_nonneg(m2.arena.drop_last());
        }
    }
}

/// The TTL sweep keeps the aggregate exact: it only ever deletes, and
/// deletion keeps it exact.
pub proof fn lemma_sweep_sum(m: CacheModel, now: u64, i: int)
    ensures
        m.sum_exact() ==> sweep_from(m, now, i).sum_exact(),
    decreases m.arena.len() - i,
{
    if 0 <= i < m.arena.len() {
        if now > m.arena[i].time_stamp {
            let m1 = delete_step(m, m.arena[i].key);
            lemma_delete_sum(m, m.arena[i].key);
            lemma_delete_len(m, m.arena[i].key);
            if m1.arena.len() < m.arena.len() {
                lemma_sweep_sum(m1, now, i);
            } else {
                lemma_sweep_sum(m1, now, i + 1);
            }
        } else {
            lemma_sweep_sum(m, now, i + 1);
        }
    }
}

/// Decay re-establishes exactness from scratch, whatever drift cliff
/// eviction left behind.
pub proof fn lemma_decay_sum(m: CacheModel)
    requires
        m.wf(),
    ensures
        decay_step(m).sum_exact(),
{
    lemma_sum_halved_le(m.arena);
    lemma_sum_nonneg(halved(m.arena));
}

// ---------------------------------------------------------------------
// The one-rank climb, the newcomer's place, the invariant update, the
// decay arithmetic and the cliff's aftermath.
// ---------------------------------------------------------------------
/// A single hit on a live, unexpired key moves it up by exactly one
/// rank — or leaves it at the top. No access buys more than one step.
pub proof fn lemma_climb_one_rank(m: CacheModel, k: u64, now: u64)
    requires
        m.valid_at(k),
        now <= m.arena[m.index[k] as int].time_stamp,
    ensures
        climb_step(m, k, now).index.contains_key(k),
        climb_step(m, k, now).index[k] == if m.index[k] > 0 {
            (m.index[k] - 1) as usize
        } else {
            0usize
        },
{
    let i: int = m.index[k] as int;
    let m1 = bump_at(m, i);
    if i > 0 {
        assert(m1.arena[i].key == k);
        assert(climb_step(m, k, now) == swap_step(m1, i, i - 1));
    }
}

/// A newcomer (a key not live in the index — absent or a stale
/// tombstone) lands just past the membrane when that position exists,
/// and at the tail otherwise — never on death row while the membrane
/// leaves room above it.
pub proof fn lemma_insert_placement(m: CacheModel, k: u64, v: u64, ttl: u64, now: u64)
    requires
        m.wf(),
        !m.valid_at(k),
    ensures
        insert_step(m, k, v, ttl, now).index.contains_key(k),
        insert_step(m, k, v, ttl, now).index[k] == if m.evict_point + 1 < insert_step(
            m,
            k,
            v,
            ttl,
            now,
        ).arena.len() {
            (m.evict_point + 1) as usize
        } else {
            (insert_step(m, k, v, ttl, now).arena.len() - 1) as usize
        },
        insert_step(m, k, v, ttl, now).arena[insert_step(m, k, v, ttl, now).index[k] as int].key
            == k,
{
    let m0: CacheModel = if m.arena.len() == m.capacity && m.evict_point < m.arena.len() {
        CacheModel { arena: m.arena.take(m.evict_point as int), ..m }
    } else {
        m
    };
    let t: int = m0.arena.len() as int;
    // truncation only shortens the arena, so a key not live before the
    // cliff is not live after it either
    assert(!m0.valid_at(k));
    let c0: u64 = if m0.counter_sum < u64::MAX {
        1u64
    } else {
        0u64
    };
    let ts: u64 = if now + ttl <= u64::MAX {
        (now + ttl) as u64
    } else {
        u64::MAX
    };
    let fresh = Node { key: k, value: v, counter: c0, time_stamp: ts };
    let m1 = CacheModel {
        arena: m0.arena.push(fresh),
        index: m0.index.insert(k, t as usize),
        counter_sum: (m0.counter_sum + c0) as u64,
        ..m0
    };
    assert(m1.arena[t] == fresh);
    let fin = insert_step(m, k, v, ttl, now);
    if m.evict_point + 1 < m1.arena.len() {
        let g: int = m.evict_point + 1;
        assert(fin == swap_step(m1, t, g));
        if g == t {
            assert(fin == m1);
            assert(fin.index[k] == t as usize);
        } else {
            assert(fin.index == m1.index.insert(m1.arena[g].key, t as usize).insert(k, g as usize));
            assert(fin.index[k] == g as usize);
            assert(fin.arena[g].key == k);
        }
    } else {
        assert(fin == m1);
        assert(fin.index[k] == t as usize);
        assert(fin.arena[t].key == k);
    }
}

/// Updating a value and then reading the key returns the new value,
/// and neither the key's rank nor any counter has moved.
pub proof fn lemma_update_read(m: CacheModel, k: u64, v: u64)
    ensures
        m.valid_at(k) ==> lookup_spec(update_step(m, k, v), k) == Some(v),
        !m.valid_at(k) ==> update_step(m, k, v) == m,
        update_step(m, k, v).index == m.index,
        update_step(m, k, v).evict_point == m.evict_point,
        forall|i: int|
            0 <= i < m.arena.len() ==> #[trigger] update_step(m, k, v).arena[i].counter
                == m.arena[i].counter && update_step(m, k, v).arena[i].key == m.arena[i].key,
{
}

/// Decay halves every counter in place: keys, values, timestamps,
/// ranks and the index are untouched.
pub proof fn lemma_decay_positions(m: CacheModel)
    ensures
        decay_step(m).index == m.index,
        decay_step(m).evict_point == m.evict_point,
        decay_step(m).arena.len() == m.arena.len(),
        forall|i: int|
            0 <= i < m.arena.len() ==> #[trigger] decay_step(m).arena[i] == (Node {
                counter: m.arena[i].counter / 2,
                ..m.arena[i]
            }),
{
}

/// Two decays leave a quarter of every counter (integer division).
pub proof fn lemma_decay_twice(m: CacheModel)
    ensures
        forall|i: int|
            0 <= i < m.arena.len() ==> #[trigger] decay_step(decay_step(m)).arena[i].counter
                == m.arena[i].counter / 4,
{
    assert forall|i: int| 0 <= i < m.arena.len() implies #[trigger] decay_step(
        decay_step(m),
    ).arena[i].counter == m.arena[i].counter / 4 by {
        vstd::arithmetic::div_mod::lemma_div_denominator(m.arena[i].counter as int, 2, 2);
    }
}

/// After inserting a key that was not live into a full arena, exactly
/// the membrane position plus one slots remain: the cliff discarded
/// the whole at-risk zone and the newcomer took one place back.
pub proof fn lemma_cliff(m: CacheModel, k: u64, v: u64, ttl: u64, now: u64)
    requires
        m.wf(),
        m.arena.len() == m.capacity,
        !m.valid_at(k),
    ensures
        insert_step(m, k, v, ttl, now).arena.len() == m.evict_point + 1,
{
}

// ---------------------------------------------------------------------
// Arena and index agree exactly, except across the two operations that
// leave stale tombstones by design.
// ---------------------------------------------------------------------
/// The model after popping the tail node and forgetting its key.
pub open spec fn pop_model(m: CacheModel) -> CacheModel {
    CacheModel { arena: m.arena.drop_last(), index: m.index.remove(m.arena.last().key), ..m }
}

/// A swap re-points the index entries of both keys it moves, so exact
/// agreement survives it.
pub proof fn lemma_swap_indexed(m: CacheModel, a: int, b: int)
    ensures
        m.indexed() ==> swap_step(m, a, b).indexed(),
{
    if m.indexed() && !(a == b || a >= m.arena.len() || b >= m.arena.len() || a < 0 || b < 0) {
        let ka = m.arena[a].key;
        let kb = m.arena[b].key;
        let mm = swap_step(m, a, b);
        assert(m.index[ka] == a && m.index[kb] == b);
        assert(ka != kb);
        assert forall|k: u64| mm.index.contains_key(k) implies #[trigger] mm.index[k]
            < mm.arena.len() && mm.arena[mm.index[k] as int].key == k by {
            if k == ka {
                assert(mm.arena[b] == m.arena[a]);
            } else if k != kb {
                assert(m.index[k] < m.arena.len() && m.arena[m.index[k] as int].key == k);
                assert(m.index[k] != a && m.index[k] != b);
            }
        }
        assert forall|i: int| 0 <= i < mm.arena.len() implies mm.index.contains_key(
            #[trigger] mm.arena[i].key,
        ) && mm.index[mm.arena[i].key] == i by {
            if i != a && i != b {
                assert(m.index.contains_key(m.arena[i].key) && m.index[m.arena[i].key] == i);
                assert(m.arena[i].key != ka && m.arena[i].key != kb);
            }
        }
    }
}

/// Dropping the tail node together with its index entry keeps the
/// agreement: nothing else pointed at the tail and the tail's key
/// pointed nowhere else.
pub proof fn lemma_pop_indexed(m: CacheModel)
    requires
        m.arena.len() > 0,
    ensures
        m.indexed() ==> pop_model(m).indexed(),
{
    if m.indexed() {
        let kd = m.arena.last().key;
        let mm = pop_model(m);
        assert(m.index[kd] == m.arena.len() - 1);
        assert forall|k: u64| mm.index.contains_key(k) implies #[trigger] mm.index[k]
            < mm.arena.len() && mm.arena[mm.index[k] as int].key == k by {
            assert(m.index[k] < m.arena.len() && m.arena[m.index[k] as int].key == k);
            assert(m.index[k] != m.arena.len() - 1);
        }
        assert forall|i: int| 0 <= i < mm.arena.len() implies mm.index.contains_key(
            #[trigger] mm.arena[i].key,
        ) && mm.index[mm.arena[i].key] == i by {
            assert(m.index.contains_key(m.arena[i].key) && m.index[m.arena[i].key] == i);
            assert(m.arena[i].key != kd);
        }
    }
}

/// Agreement only speaks of keys and positions: any operation that
/// keeps the index and every slot's key keeps the agreement.
pub proof fn lemma_same_keys_indexed(m1: CacheModel, m2: CacheModel)
    requires
        m2.index == m1.index,
        m2.arena.len() == m1.arena.len(),
        forall|i: int| 0 <= i < m1.arena.len() ==> #[trigger] m2.arena[i].key == m1.arena[i].key,
    ensures
        m1.indexed() ==> m2.indexed(),
{
    if m1.indexed() {
        assert forall|k: u64| m2.index.contains_key(k) implies #[trigger] m2.index[k]
            < m2.arena.len() && m2.arena[m2.index[k] as int].key == k by {
            assert(m1.index[k] < m1.arena.len() && m1.arena[m1.index[k] as int].key == k);
        }
        assert forall|i: int| 0 <= i < m2.arena.len() implies m2.index.contains_key(
            #[trigger] m2.arena[i].key,
        ) && m2.index[m2.arena[i].key] == i by {
            assert(m1.index.contains_key(m1.arena[i].key) && m1.index[m1.arena[i].key] == i);
        }
    }
}

/// A value update keeps the agreement.
pub proof fn lemma_update_indexed(m: CacheModel, k: u64, v: u64)
    ensures
        m.indexed() ==> update_step(m, k, v).indexed(),
{
    if m.indexed() {
        lemma_same_keys_indexed(m, update_step(m, k, v));
    }
}

/// The membrane move and decay keep the agreement.
pub proof fn lemma_quiet_ops_indexed(m: CacheModel)
    ensures
        m.indexed() ==> membrane_step(m).indexed(),
        m.indexed() ==> decay_step(m).indexed(),
{
    if m.indexed() {
        lemma_same_keys_indexed(m, membrane_step(m));
        lemma_same_keys_indexed(m, decay_step(m));
    }
}

/// A hit on a key that has not expired keeps the agreement. (A hit on
/// an expired key leaves the demoted node behind as a tombstone: that
/// is the one path of promotion that suspends it.)
pub proof fn lemma_climb_indexed(m: CacheModel, k: u64, now: u64)
    requires
        m.valid_at(k) ==> now <= m.arena[m.index[k] as int].time_stamp,
    ensures
        m.indexed() ==> climb_step(m, k, now).indexed(),
{
    if m.indexed() && m.valid_at(k) {
        let i: int = m.index[k] as int;
        let m1 = bump_at(m, i);
        lemma_same_keys_indexed(m, m1);
        if i > 0 {
            lemma_swap_indexed(m1, i, i - 1);
        }
    }
}

/// Insertion into a non-full arena keeps the agreement: no cliff
/// eviction happens, so no tombstones are made. (A full arena is cut
/// at the membrane first, and the orphaned entries of the discarded
/// tail suspend the agreement until lazy validation retires them.)
pub proof fn lemma_insert_indexed(m: CacheModel, k: u64, v: u64, ttl: u64, now: u64)
    requires
        m.arena.len() < m.capacity,
    ensures
        m.indexed() ==> insert_step(m, k, v, ttl, now).indexed(),
{
    if m.indexed() {
        if m.index.contains_key(k) {
            lemma_update_indexed(m, k, v);
        } else {
            let c0: u64 = if m.counter_sum < u64::MAX {
                1u64
            } else {
                0u64
            };
            let ts: u64 = if now + ttl <= u64::MAX {
                (now + ttl) as u64
            } else {
                u64::MAX
            };
            let t: int = m.arena.len() as int;
            let fresh = Node { key: k, value: v, counter: c0, time_stamp: ts };
            let m1 = CacheModel {
                arena: m.arena.push(fresh),
                index: m.index.insert(k, t as usize),
                counter_sum: (m.counter_sum + c0) as u64,
                ..m
            };
            assert forall|k2: u64| m1.index.contains_key(k2) implies #[trigger] m1.index[k2]
                < m1.arena.len() && m1.arena[m1.index[k2] as int].key == k2 by {
                if k2 != k {
                    assert(m.index[k2] < m.arena.len() && m.arena[m.index[k2] as int].key == k2);
                }
            }
            assert forall|i: int| 0 <= i < m1.arena.len() implies m1.index.contains_key(
                #[trigger] m1.arena[i].key,
            ) && m1.index[m1.arena[i].key] == i by {
                if i < t {
                    assert(m.index.contains_key(m.arena[i].key) && m.index[m.arena[i].key] == i);
                    assert(m.arena[i].key != k);
                }
            }
            assert(m1.indexed());
            if m.evict_point + 1 < m1.arena.len() {
                lemma_swap_indexed(m1, t, m.evict_point + 1);
            }
        }
    }
}

/// Deletion keeps the agreement: the victim is drained to the tail by
/// swaps (which keep it) and then popped together with its entry.
pub proof fn lemma_delete_indexed(m: CacheModel, k: u64)
    ensures
        m.indexed() ==> delete_step(m, k).indexed(),
{
    if m.indexed() && m.valid_at(k) {
        let i: int = m.index[k] as int;
        let len: int = m.arena.len() as int;
        if m.evict_point + 1 >= len {
            let ms = swap_step(m, i, len - 1);
            lemma_swap_indexed(m, i, len - 1);
            lemma_pop_indexed(ms);
            assert(ms.arena.last().key == k);
            assert(delete_step(m, k).arena =~= pop_model(ms).arena);
            assert(delete_step(m, k).index =~= pop_model(ms).index);
        } else {
            let m1 = swap_step(m, i, m.evict_point + 1);
            let m2 = swap_step(m1, m.evict_point + 1, len - 1);
            lemma_swap_indexed(m, i, m.evict_point + 1);
            lemma_swap_indexed(m1, m.evict_point + 1, len - 1);
            lemma_pop_indexed(m2);
            assert(delete_step(m, k).arena =~= pop_model(m2).arena);
            assert(delete_step(m, k).index =~= pop_model(m2).index);
        }
    }
}

/// The TTL sweep keeps the agreement: it only ever deletes.
pub proof fn lemma_sweep_indexed(m: CacheModel, now: u64, i: int)
    ensures
        m.indexed() ==> sweep_from(m, now, i).indexed(),
    decreases m.arena.len() - i,
{
    if 0 <= i < m.arena.len() {
        if now > m.arena[i].time_stamp {
            let m1 = delete_step(m, m.arena[i].key);
            lemma_delete_indexed(m, m.arena[i].key);
            lemma_delete_len(m, m.arena[i].key);
            if m1.arena.len() < m.arena.len() {
                lemma_sweep_indexed(m1, now, i);
            } else {
                lemma_sweep_indexed(m1, now, i + 1);
            }
        } else {
            lemma_sweep_indexed(m, now, i + 1);
        }
    }
}

/// A hit on an expired key does not promote: the key leaves the index
/// (its node stays behind as a tombstone) and the arena keeps its
/// length.
pub proof fn lemma_climb_expired(m: CacheModel, k: u64, now: u64)
    requires
        m.valid_at(k),
        now > m.arena[m.index[k] as int].time_stamp,
    ensures
        !climb_step(m, k, now).index.contains_key(k),
        climb_step(m, k, now).arena.len() == m.arena.len(),
{
}

/// Deleting a victim at or past the membrane leaves the safe zone
/// untouched: the drain runs through positions at or past the
/// membrane only.
pub proof fn lemma_delete_safe_zone(m: CacheModel, k: u64, j: int)
    requires
        m.valid_at(k),
        m.index[k] >= m.evict_point,
        0 <= j < m.evict_point,
        j < m.arena.len(),
    ensures
        delete_step(m, k).arena[j] == m.arena[j],
{
}

/// Insertion never touches a node below the membrane: the cliff cuts
/// at the membrane, the newcomer enters at or past it, and an
/// overwrite changes a value but neither key nor counter.
pub proof fn lemma_insert_safe_zone(m: CacheModel, k: u64, v: u64, ttl: u64, now: u64, j: int)
    requires
        0 <= j < m.evict_point,
        j < m.arena.len(),
        j < insert_step(m, k, v, ttl, now).arena.len(),
    ensures
        insert_step(m, k, v, ttl, now).arena[j].key == m.arena[j].key,
        insert_step(m, k, v, ttl, now).arena[j].counter == m.arena[j].counter,
        insert_step(m, k, v, ttl, now).arena[j].time_stamp == m.arena[j].time_stamp,
{
}

// ---------------------------------------------------------------------
// The sweep deletes only what has expired.
// ---------------------------------------------------------------------
/// The node a live key stands at.
pub open spec fn node_of(m: CacheModel, k: u64) -> Node {
    m.arena[m.index[k] as int]
}

/// A swap moves nodes around, but never separates a live key from its
/// node (under exact agreement).
pub proof fn lemma_swap_keeps_nodes(m: CacheModel, a: int, b: int, k: u64)
    requires
        m.indexed(),
        m.valid_at(k),
    ensures
        swap_step(m, a, b).valid_at(k),
        node_of(swap_step(m, a, b), k) == node_of(m, k),
{
    if !(a == b || a >= m.arena.len() || b >= m.arena.len() || a < 0 || b < 0) {
        let ka = m.arena[a].key;
        let kb = m.arena[b].key;
        assert(m.index[ka] == a && m.index[kb] == b);
        assert(ka != kb);
        let mm = swap_step(m, a, b);
        if k == ka {
            assert(mm.index[k] == b as usize);
            assert(mm.arena[b] == m.arena[a]);
        } else if k == kb {
            assert(mm.index[k] == a as usize);
            assert(mm.arena[a] == m.arena[b]);
        } else {
            assert(m.index[k] != a && m.index[k] != b);
        }
    }
}

/// Deleting one key leaves every other live key on its own node,
/// untouched.
pub proof fn lemma_delete_keeps_others(m: CacheModel, k: u64, k2: u64)
    requires
        m.indexed(),
        m.valid_at(k2),
        k2 != k,
    ensures
        delete_step(m, k).valid_at(k2),
        node_of(delete_step(m, k), k2) == node_of(m, k2),
{
    if m.valid_at(k) {
        let i: int = m.index[k] as int;
        let len: int = m.arena.len() as int;
        if m.evict_point + 1 >= len {
            let ms = swap_step(m, i, len - 1);
            lemma_swap_indexed(m, i, len - 1);
            lemma_swap_keeps_nodes(m, i, len - 1, k2);
            lemma_swap_keeps_nodes(m, i, len - 1, k);
            assert(ms.arena[len - 1].key == k);
            assert(ms.index[k2] != len - 1);
            assert(delete_step(m, k).arena =~= pop_model(ms).arena);
            assert(delete_step(m, k).index =~= pop_model(ms).index);
        } else {
            let g: int = m.evict_point + 1;
            let m1 = swap_step(m, i, g);
            let m2 = swap_step(m1, g, len - 1);
            lemma_swap_indexed(m, i, g);
            lemma_swap_keeps_nodes(m, i, g, k2);
            lemma_swap_keeps_nodes(m, i, g, k);
            lemma_swap_indexed(m1, g, len - 1);
            lemma_swap_keeps_nodes(m1, g, len - 1, k2);
            lemma_swap_keeps_nodes(m1, g, len - 1, k);
            assert(m2.arena[m2.index[k] as int].key == k);
            assert(m2.arena[len - 1].key == k);
            assert(m2.index[k2] != len - 1);
        }
    }
}

/// The TTL sweep spares the living: a live key that has not expired by
/// `now` is still live afterwards, on the very same node. (Exact
/// agreement is required: a stale duplicate of a live key could
/// otherwise draw the deletion onto the live one.)
pub proof fn lemma_sweep_spares_the_living(m: CacheModel, now: u64, i: int, k: u64)
    requires
        m.indexed(),
        m.valid_at(k),
        now <= node_of(m, k).time_stamp,
    ensures
        sweep_from(m, now, i).valid_at(k),
        node_of(sweep_from(m, now, i), k) == node_of(m, k),
    decreases m.arena.len() - i,
{
    if 0 <= i < m.arena.len() {
        if now > m.arena[i].time_stamp {
            let kd = m.arena[i].key;
            assert(m.index[kd] == i);
            assert(kd != k);
            let m1 = delete_step(m, kd);
            lemma_delete_keeps_others(m, kd, k);
            lemma_delete_indexed(m, kd);
            lemma_delete_len(m, kd);
            if m1.arena.len() < m.arena.len() {
                lemma_sweep_spares_the_living(m1, now, i, k);
            } else {
                lemma_sweep_spares_the_living(m1, now, i + 1, k);
            }
        } else {
            lemma_sweep_spares_the_living(m, now, i + 1, k);
        }
    }
}

} // verus!

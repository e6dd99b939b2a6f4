use crate::node::Node;
use std::collections::HashMap;
use vstd::prelude::*;

verus! {

/// The mathematical state of a [`Cache`].
///
/// `arena` is the ranked sequence (position 0 is the hottest rank, the
/// last position is death row), `index` the key-to-position mapping,
/// `counter_sum` the running aggregate of the node counters,
/// `evict_point` the membrane separating the safe zone (positions below
/// it) from the at-risk zone.
#[verifier::ext_equal]
pub ghost struct CacheModel {
    pub arena: Seq<Node>,
    pub index: Map<u64, usize>,
    pub counter_sum: u64,
    pub evict_point: usize,
    pub capacity: usize,
}

/// Sum of the access counters of a ranked sequence.
pub open spec fn sum_counters(s: Seq<Node>) -> int
    decreases s.len(),
{
    if s.len() == 0 {
        0
    } else {
        sum_counters(s.drop_last()) + s.last().counter
    }
}

pub proof fn lemma_sum_nonneg(s: Seq<Node>)
    ensures
        0 <= sum_counters(s),
    decreases s.len(),
{
    if s.len() > 0 {
        lemma_sum_nonneg(s.drop_last());
    }
}

pub proof fn lemma_sum_take_step(s: Seq<Node>, i: int)
    requires
        0 <= i < s.len(),
    ensures
        sum_counters(s.take(i + 1)) == sum_counters(s.take(i)) + s[i].counter,
{
    assert(s.take(i + 1).drop_last() =~= s.take(i));
    assert(s.take(i + 1).last() == s[i]);
}

pub proof fn lemma_sum_take_all(s: Seq<Node>)
    ensures
        sum_counters(s.take(s.len() as int)) == sum_counters(s),
{
    assert(s.take(s.len() as int) =~= s);
}

pub proof fn lemma_sum_update(s: Seq<Node>, i: int, n: Node)
    requires
        0 <= i < s.len(),
    ensures
        sum_counters(s.update(i, n)) == sum_counters(s) - s[i].counter + n.counter,
    decreases s.len(),
{
    if i == s.len() - 1 {
        assert(s.update(i, n).drop_last() =~= s.drop_last());
        assert(s.update(i, n).last() == n);
    } else {
        assert(s.update(i, n).drop_last() =~= s.drop_last().update(i, n));
        assert(s.update(i, n).last() == s.last());
        lemma_sum_update(s.drop_last(), i, n);
    }
}

pub proof fn lemma_sum_elem_le(s: Seq<Node>, i: int)
    requires
        0 <= i < s.len(),
    ensures
        s[i].counter <= sum_counters(s),
    decreases s.len(),
{
    if i == s.len() - 1 {
        lemma_sum_nonneg(s.drop_last());
    } else {
        lemma_sum_elem_le(s.drop_last(), i);
        assert(s.drop_last()[i] == s[i]);
    }
}

pub proof fn lemma_sum_swap(s: Seq<Node>, i: int, j: int)
    requires
        0 <= i < s.len(),
        0 <= j < s.len(),
    ensures
        sum_counters(s.update(i, s[j]).update(j, s[i])) == sum_counters(s),
{
    lemma_sum_update(s, i, s[j]);
    lemma_sum_update(s.update(i, s[j]), j, s[i]);
}

pub proof fn lemma_sum_push(s: Seq<Node>, n: Node)
    ensures
        sum_counters(s.push(n)) == sum_counters(s) + n.counter,
{
    assert(s.push(n).drop_last() =~= s);
    assert(s.push(n).last() == n);
}

pub proof fn lemma_sum_take_le(s: Seq<Node>, i: int)
    requires
        0 <= i <= s.len(),
    ensures
        sum_counters(s.take(i)) <= sum_counters(s),
    decreases s.len() - i,
{
    if i == s.len() {
        lemma_sum_take_all(s);
    } else {
        lemma_sum_take_step(s, i);
        lemma_sum_take_le(s, i + 1);
    }
}

impl CacheModel {
    /// The basic well-formedness that every operation preserves: the
    /// capacity is positive and leaves room for index arithmetic, the
    /// membrane never passes the capacity, and the running counter sum
    /// never undercounts the arena (cliff eviction discards a whole
    /// tail without recounting it, leaving the aggregate an overcount
    /// until the next decay recomputes it).
    pub open spec fn wf(self) -> bool {
        &&& 1 <= self.capacity
        &&& self.capacity < usize::MAX
        &&& self.evict_point <= self.capacity
        &&& sum_counters(self.arena) <= self.counter_sum
    }

    /// The aggregate counter is exact, not merely an upper bound.
    pub open spec fn sum_exact(self) -> bool {
        self.counter_sum == sum_counters(self.arena)
    }

    /// The arena never holds more nodes than the capacity allows.
    pub open spec fn cap_ok(self) -> bool {
        self.arena.len() <= self.capacity
    }

    /// The index entry for `k` points at a slot that still holds `k`:
    /// the lazy-validation test that every lookup path applies.
    pub open spec fn valid_at(self, k: u64) -> bool {
        &&& self.index.contains_key(k)
        &&& self.index[k] < self.arena.len()
        &&& self.arena[self.index[k] as int].key == k
    }

    /// Arena and index agree exactly: every index entry points at its
    /// own key, and every arena slot is indexed at its position. Cliff
    /// eviction and expiry demotion suspend this by design (stale
    /// tombstones), every other operation preserves it.
    pub open spec fn indexed(self) -> bool {
        &&& forall|k: u64|
            self.index.contains_key(k) ==> #[trigger] self.index[k] < self.arena.len()
                && self.arena[self.index[k] as int].key == k
        &&& forall|i: int|
            0 <= i < self.arena.len() ==> self.index.contains_key(#[trigger] self.arena[i].key)
                && self.index[self.arena[i].key] == i
    }
}

/// Exchange of the nodes at `a` and `b`, with the index updated for both
/// keys; no effect if either position is out of bounds or they coincide.
pub open spec fn swap_step(m: CacheModel, a: int, b: int) -> CacheModel {
    if a == b || a >= m.arena.len() || b >= m.arena.len() || a < 0 || b < 0 {
        m
    } else {
        CacheModel {
            arena: m.arena.update(a, m.arena[b]).update(b, m.arena[a]),
            index: m.index.insert(m.arena[b].key, a as usize).insert(m.arena[a].key, b as usize),
            ..m
        }
    }
}

/// One hit on the node at position `i`: its counter and the aggregate
/// rise together, and saturate together, so that the aggregate never
/// undercounts the arena.
pub open spec fn bump_at(m: CacheModel, i: int) -> CacheModel {
    if m.counter_sum < u64::MAX && m.arena[i].counter < u64::MAX {
        CacheModel {
            arena: m.arena.update(
                i,
                Node { counter: (m.arena[i].counter + 1) as u64, ..m.arena[i] },
            ),
            counter_sum: (m.counter_sum + 1) as u64,
            ..m
        }
    } else {
        m
    }
}

/// Promotion on a hit. An invalid or stale key has no effect. A live key
/// is bumped; if it has expired it is demoted to just past the membrane
/// and its index entry removed (the node stays behind as a tombstone);
/// otherwise it climbs exactly one rank.
pub open spec fn climb_step(m: CacheModel, k: u64, now: u64) -> CacheModel {
    if !m.valid_at(k) {
        m
    } else {
        let i: int = m.index[k] as int;
        let m1: CacheModel = bump_at(m, i);
        if now > m.arena[i].time_stamp {
            let m2: CacheModel = if m.evict_point + 1 < m1.arena.len() {
                swap_step(m1, i, m.evict_point + 1)
            } else {
                m1
            };
            CacheModel { index: m2.index.remove(k), ..m2 }
        } else if i > 0 {
            swap_step(m1, i, i - 1)
        } else {
            m1
        }
    }
}

/// Replacement of the value in place: counter, timestamp and position
/// stay as they are; a stale or absent key has no effect.
pub open spec fn update_step(m: CacheModel, k: u64, v: u64) -> CacheModel {
    if m.valid_at(k) {
        let i: int = m.index[k] as int;
        CacheModel { arena: m.arena.update(i, Node { value: v, ..m.arena[i] }), ..m }
    } else {
        m
    }
}

/// Insertion of a key. A full arena is first cut off at the membrane
/// (cliff-edge eviction; the index entries of the discarded tail are
/// left to lazy validation). A key whose index entry is still valid
/// delegates to a value update; a stale entry counts as missing, as on
/// every other path, and the key enters fresh, retiring the tombstone.
/// A new node starts with one hit, is appended at the tail and then
/// swapped to just past the membrane when that position exists: the
/// newcomer's grace period.
pub open spec fn insert_step(m: CacheModel, k: u64, v: u64, ttl: u64, now: u64) -> CacheModel {
    let m0: CacheModel = if m.arena.len() == m.capacity && m.evict_point < m.arena.len() {
        CacheModel { arena: m.arena.take(m.evict_point as int), ..m }
    } else {
        m
    };
    if m0.valid_at(k) {
        update_step(m0, k, v)
    } else {
        let c0: u64 = if m0.counter_sum < u64::MAX {
            1u64
        } else {
            0u64
        };
        let ts: u64 = if now + ttl <= u64::MAX {
            (now + ttl) as u64
        } else {
            u64::MAX
        };
        let t: int = m0.arena.len() as int;
        let m1: CacheModel = CacheModel {
            arena: m0.arena.push(Node { key: k, value: v, counter: c0, time_stamp: ts }),
            index: m0.index.insert(k, t as usize),
            counter_sum: (m0.counter_sum + c0) as u64,
            ..m0
        };
        if m.evict_point + 1 < m1.arena.len() {
            swap_step(m1, t, m.evict_point + 1)
        } else {
            m1
        }
    }
}

/// Removal of a live key. When the position past the membrane does not
/// exist the victim is swap-removed and the moved tail entry repaired;
/// otherwise the victim is drained to the tail in two swaps (through
/// the membrane), popped, and forgotten by the index. The victim's
/// counter leaves the aggregate with it (saturating at zero, which a
/// well-formed state never reaches). The safe zone is never reordered.
pub open spec fn delete_step(m: CacheModel, k: u64) -> CacheModel {
    if !m.valid_at(k) {
        m
    } else {
        let i: int = m.index[k] as int;
        let len: int = m.arena.len() as int;
        if m.evict_point + 1 >= len {
            let arena1: Seq<Node> = m.arena.update(i, m.arena.last()).drop_last();
            let index1: Map<u64, usize> = if i < len - 1 {
                m.index.insert(m.arena.last().key, i as usize)
            } else {
                m.index
            };
            let cs1: u64 = if m.arena[i].counter <= m.counter_sum {
                (m.counter_sum - m.arena[i].counter) as u64
            } else {
                0u64
            };
            CacheModel { arena: arena1, index: index1.remove(k), counter_sum: cs1, ..m }
        } else {
            let m1: CacheModel = swap_step(m, i, m.evict_point + 1);
            let m2: CacheModel = swap_step(m1, m.evict_point + 1, len - 1);
            let victim: Node = m2.arena.last();
            let cs2: u64 = if victim.counter <= m2.counter_sum {
                (m2.counter_sum - victim.counter) as u64
            } else {
                0u64
            };
            CacheModel {
                arena: m2.arena.drop_last(),
                index: m2.index.remove(victim.key),
                counter_sum: cs2,
                ..m2
            }
        }
    }
}

/// The dynamic membrane. On a non-empty arena the boundary is first
/// clamped into the arena, then moved by the strength of the node
/// sitting on it: a strong boundary (counter above the mean) expands
/// the safe zone by one step, capped at the capacity; a weak one
/// contracts it by one step, saturating at zero.
pub open spec fn membrane_step(m: CacheModel) -> CacheModel {
    if m.arena.len() == 0 {
        m
    } else {
        let n: int = m.arena.len() as int;
        let ep0: int = if m.evict_point >= n {
            n - 1
        } else {
            m.evict_point as int
        };
        let avg: int = m.counter_sum as int / n;
        let stride: int = if m.capacity as int / 10 >= 1 {
            m.capacity as int / 10
        } else {
            1
        };
        let ep1: int = if m.arena[ep0].counter > avg {
            if ep0 + stride >= m.capacity {
                m.capacity as int
            } else {
                ep0 + stride
            }
        } else {
            if stride >= ep0 {
                0
            } else {
                ep0 - stride
            }
        };
        let ep2: int = if ep1 > m.capacity {
            m.capacity as int
        } else {
            ep1
        };
        CacheModel { evict_point: ep2 as usize, ..m }
    }
}

/// Every counter halved, nothing else touched.
pub open spec fn halved(s: Seq<Node>) -> Seq<Node> {
    Seq::new(s.len(), |i: int| Node { counter: s[i].counter / 2, ..s[i] })
}

/// Periodic aging: every counter is halved and the aggregate recomputed
/// from scratch, which removes any drift that cliff eviction left in
/// it. Positions and index are untouched.
pub open spec fn decay_step(m: CacheModel) -> CacheModel {
    let s: int = sum_counters(halved(m.arena));
    CacheModel {
        arena: halved(m.arena),
        counter_sum: if s <= u64::MAX {
            s as u64
        } else {
            u64::MAX
        },
        ..m
    }
}

pub proof fn lemma_sum_halved_le(s: Seq<Node>)
    ensures
        sum_counters(halved(s)) <= sum_counters(s),
    decreases s.len(),
{
    if s.len() > 0 {
        assert(halved(s).drop_last() =~= halved(s.drop_last()));
        lemma_sum_halved_le(s.drop_last());
    }
}

pub proof fn lemma_delete_len(m: CacheModel, k: u64)
    ensures
        delete_step(m, k).arena.len() <= m.arena.len(),
{
}

/// The TTL sweep from cursor `i`: an expired node at the cursor is
/// deleted and the cursor stays (the slot now holds a different node),
/// anything else advances the cursor. Deletion of a stale tombstone may
/// remove nothing; the cursor advances then, so the walk terminates.
pub open spec fn sweep_from(m: CacheModel, now: u64, i: int) -> CacheModel
    decreases m.arena.len() - i,
        via sweep_from_decreases
{
    if i < 0 || i >= m.arena.len() {
        m
    } else if now > m.arena[i].time_stamp {
        let m1: CacheModel = delete_step(m, m.arena[i].key);
        if m1.arena.len() < m.arena.len() {
            sweep_from(m1, now, i)
        } else {
            sweep_from(m1, now, i + 1)
        }
    } else {
        sweep_from(m, now, i + 1)
    }
}

#[via_fn]
proof fn sweep_from_decreases(m: CacheModel, now: u64, i: int) {
    if 0 <= i < m.arena.len() && now > m.arena[i].time_stamp {
        lemma_delete_len(m, m.arena[i].key);
    }
}

/// The whole TTL sweep: the walk started at the hottest rank.
pub open spec fn sweep_step(m: CacheModel, now: u64) -> CacheModel {
    sweep_from(m, now, 0)
}

/// The single-writer ranked cache.
///
/// The fields are public so that a host (or a test) can inspect the
/// state it has built through the operations; all mutation goes through
/// the verified methods, each of which is specified by a total
/// transition function on [`CacheModel`].
pub struct Cache {
    pub arena: Vec<Node>,
    pub index: HashMap<u64, usize>,
    pub counter_sum: u64,
    pub evict_point: usize,
    pub capacity: usize,
}

impl View for Cache {
    type V = CacheModel;

    open spec fn view(&self) -> CacheModel {
        CacheModel {
            arena: self.arena@,
            index: self.index@,
            counter_sum: self.counter_sum,
            evict_point: self.evict_point,
            capacity: self.capacity,
        }
    }
}

impl Cache {
    /// An empty cache. The membrane starts at the capacity: until the
    /// first maintenance pass, nothing is at risk.
    pub fn new(capacity: usize) -> (c: Cache)
        requires
            1 <= capacity < usize::MAX,
        ensures
            c@ == (CacheModel {
                arena: Seq::<Node>::empty(),
                index: Map::<u64, usize>::empty(),
                counter_sum: 0u64,
                evict_point: capacity,
                capacity,
            }),
            c@.wf(),
            c@.sum_exact(),
            c@.cap_ok(),
            c@.indexed(),
    {
        let c = Cache {
            arena: Vec::with_capacity(capacity),
            index: HashMap::with_capacity(capacity),
            counter_sum: 0,
            evict_point: capacity,
            capacity,
        };
        proof {
            assert(c@ =~= (CacheModel {
                arena: Seq::<Node>::empty(),
                index: Map::<u64, usize>::empty(),
                counter_sum: 0u64,
                evict_point: capacity,
                capacity,
            }));
        }
        c
    }

    /// Swap two arena slots and re-point the index entries of the two
    /// keys now sitting there. Out-of-range positions make it a no-op.
    pub fn swap_nodes(&mut self, idx_a: usize, idx_b: usize)
        ensures
            final(self)@ == swap_step(old(self)@, idx_a as int, idx_b as int),
            old(self)@.wf() ==> final(self)@.wf(),
    {
        if idx_a == idx_b || idx_a >= self.arena.len() || idx_b >= self.arena.len() {
            return ;
        }
        let node_a: Node = self.arena[idx_a];
        let node_b: Node = self.arena[idx_b];
        self.arena.set(idx_a, node_b);
        self.arena.set(idx_b, node_a);
        let key_a: u64 = self.arena[idx_a].key;
        let key_b: u64 = self.arena[idx_b].key;
        self.index.insert(key_a, idx_a);
        self.index.insert(key_b, idx_b);
        proof {
            assert(self@ =~= swap_step(old(self)@, idx_a as int, idx_b as int));
            lemma_sum_swap(old(self)@.arena, idx_a as int, idx_b as int);
        }
    }

    /// Promotion on a hit: one rank of climb at most, however hot the
    /// entry is; an expired entry is demoted past the membrane instead
    /// and forgotten by the index.
    pub fn viscous_climb(&mut self, key: u64, now: u64)
        ensures
            final(self)@ == climb_step(old(self)@, key, now),
            old(self)@.wf() ==> final(self)@.wf(),
    {
        let current_index: usize;
        if let Some(p) = self.index.get(&key) {
            let i: usize = *p;
            if i < self.arena.len() && self.arena[i].key == key {
                current_index = i;
            } else {
                return ;
            }
        } else {
            return ;
        }
        // The counter and the aggregate move together, so the aggregate
        // keeps dominating the arena sum even at saturation.
        if self.counter_sum < u64::MAX && self.arena[current_index].counter < u64::MAX {
            let n: Node = self.arena[current_index];
            self.arena.set(current_index, Node { counter: n.counter + 1, ..n });
            self.counter_sum = self.counter_sum + 1;
        }
        proof {
            assert(self@ =~= bump_at(old(self)@, current_index as int));
            if old(self)@.wf() {
                lemma_sum_update(
                    old(self)@.arena,
                    current_index as int,
                    self@.arena[current_index as int],
                );
                assert(self@.wf());
            }
        }
        if now > self.arena[current_index].time_stamp {
            if self.evict_point < self.arena.len() - 1 {
                let target: usize = self.evict_point + 1;
                self.swap_nodes(current_index, target);
            }
            self.index.remove(&key);
            proof {
                assert(self@ =~= climb_step(old(self)@, key, now));
            }
            return ;
        }
        if current_index > 0 {
            self.swap_nodes(current_index, current_index - 1);
        }
        proof {
            assert(self@ =~= climb_step(old(self)@, key, now));
        }
    }

    /// Insert `key` with `value` and a time-to-live of `ttl_secs` from
    /// `now`. On a full arena this first performs the cliff-edge
    /// eviction at the membrane; a key with a valid index entry
    /// becomes an in-place value update, while a stale entry reads as
    /// missing (lazy validation) and is overwritten; a new node enters
    /// with the newcomer's grace position just past the membrane.
    pub fn gatsby_insert(&mut self, key: u64, value: u64, ttl_secs: u64, now: u64)
        ensures
            final(self)@ == insert_step(old(self)@, key, value, ttl_secs, now),
            old(self)@.wf() ==> final(self)@.wf(),
    {
        if self.arena.len() == self.capacity {
            if self.evict_point < self.arena.len() {
                proof {
                    lemma_sum_take_le(self@.arena, self.evict_point as int);
                }
                self.arena.truncate(self.evict_point);
            }
        }
        let ghost m0: CacheModel = self@;
        let mut known: bool = false;
        if let Some(p) = self.index.get(&key) {
            let idx: usize = *p;
            if idx < self.arena.len() && self.arena[idx].key == key {
                known = true;
            }
        }
        if known {
            self.update_value(key, value);
            proof {
                assert(self@ =~= insert_step(old(self)@, key, value, ttl_secs, now));
            }
            return ;
        }
        let time_stamp: u64 = if ttl_secs <= u64::MAX - now {
            now + ttl_secs
        } else {
            u64::MAX
        };
        let start_count: u64 = if self.counter_sum < u64::MAX {
            1
        } else {
            0
        };
        let node = Node { key, value, counter: start_count, time_stamp };
        let new_idx: usize = self.arena.len();
        self.arena.push(node);
        self.index.insert(key, new_idx);
        self.counter_sum = self.counter_sum + start_count;
        proof {
            lemma_sum_push(m0.arena, node);
        }
        if self.evict_point < self.arena.len() - 1 {
            let target: usize = self.evict_point + 1;
            self.swap_nodes(new_idx, target);
        }
        proof {
            assert(self@ =~= insert_step(old(self)@, key, value, ttl_secs, now));
        }
    }

    /// Remove `key`. A stale or absent key has no effect. The victim is
    /// drained to the tail through the position just past the membrane
    /// (two swaps) and popped, so the safe zone keeps its order; when
    /// that position does not exist the victim is swap-removed instead.
    /// Either way its counter leaves the aggregate with it, so the
    /// aggregate stays exact across deletion.
    pub fn double_swap_delete(&mut self, key: u64)
        ensures
            final(self)@ == delete_step(old(self)@, key),
            old(self)@.wf() ==> final(self)@.wf(),
    {
        let idx: usize;
        if let Some(p) = self.index.get(&key) {
            let i: usize = *p;
            if i < self.arena.len() && self.arena[i].key == key {
                idx = i;
            } else {
                return ;
            }
        } else {
            return ;
        }
        if self.evict_point >= self.arena.len() - 1 {
            let removed: Node = self.arena.swap_remove(idx);
            if idx < self.arena.len() {
                let moved_key: u64 = self.arena[idx].key;
                self.index.insert(moved_key, idx);
            }
            self.index.remove(&key);
            if removed.counter <= self.counter_sum {
                self.counter_sum = self.counter_sum - removed.counter;
            } else {
                self.counter_sum = 0;
            }
            proof {
                assert(self@ =~= delete_step(old(self)@, key));
                if old(self)@.wf() {
                    lemma_sum_update(old(self)@.arena, idx as int, old(self)@.arena.last());
                    lemma_sum_nonneg(self@.arena);
                    lemma_sum_elem_le(old(self)@.arena, idx as int);
                    assert(self@.wf());
                }
            }
            return ;
        }
        let target: usize = self.evict_point + 1;
        self.swap_nodes(idx, target);
        let last_idx: usize = self.arena.len() - 1;
        self.swap_nodes(target, last_idx);
        let ghost m2: CacheModel = self@;
        if let Some(node) = self.arena.pop() {
            self.index.remove(&node.key);
            if node.counter <= self.counter_sum {
                self.counter_sum = self.counter_sum - node.counter;
            } else {
                self.counter_sum = 0;
            }
        }
        proof {
            assert(self@.arena =~= m2.arena.drop_last());
            assert(self@ =~= delete_step(old(self)@, key));
            if old(self)@.wf() {
                assert(sum_counters(m2.arena) == sum_counters(m2.arena.drop_last())
                    + m2.arena.last().counter);
                lemma_sum_nonneg(m2.arena.drop_last());
                assert(self@.wf());
            }
        }
    }

    /// Replace the value stored under `key` in place. The node's
    /// counter, timestamp and rank are untouched; an absent or stale
    /// key leaves the cache as it was.
    pub fn update_value(&mut self, key: u64, value: u64)
        ensures
            final(self)@ == update_step(old(self)@, key, value),
            old(self)@.wf() ==> final(self)@.wf(),
    {
        if let Some(p) = self.index.get(&key) {
            let idx: usize = *p;
            if idx < self.arena.len() && self.arena[idx].key == key {
                let n: Node = self.arena[idx];
                self.arena.set(idx, Node { value, ..n });
                proof {
                    lemma_sum_update(old(self)@.arena, idx as int, Node { value, ..n });
                    assert(self@ =~= update_step(old(self)@, key, value));
                }
                return ;
            }
        }
        proof {
            assert(self@ =~= update_step(old(self)@, key, value));
        }
    }

    /// Adjust the membrane by the strength of the node sitting on it:
    /// strong expands the safe zone by one step (capped at the
    /// capacity), weak contracts it by one step (saturating at zero).
    pub fn update_evict_point(&mut self)
        ensures
            final(self)@ == membrane_step(old(self)@),
            old(self)@.wf() ==> final(self)@.wf(),
    {
        let n: usize = self.arena.len();
        if n == 0 {
            return ;
        }
        if self.evict_point >= n {
            self.evict_point = n - 1;
        }
        let avg: u64 = self.counter_sum / (n as u64);
        let mut stride: usize = self.capacity / 10;
        if stride == 0 {
            stride = 1;
        }
        if self.arena[self.evict_point].counter > avg {
            if self.evict_point >= self.capacity {
                self.evict_point = self.capacity;
            } else if stride >= self.capacity - self.evict_point {
                self.evict_point = self.capacity;
            } else {
                self.evict_point = self.evict_point + stride;
            }
        } else {
            if stride >= self.evict_point {
                self.evict_point = 0;
            } else {
                self.evict_point = self.evict_point - stride;
            }
        }
        if self.evict_point > self.capacity {
            self.evict_point = self.capacity;
        }
        proof {
            assert(self@ =~= membrane_step(old(self)@));
        }
    }

    /// Periodic aging: halve every counter and recompute the aggregate
    /// from scratch, removing any drift. Ranks and index are untouched.
    pub fn time_decay(&mut self)
        ensures
            final(self)@ == decay_step(old(self)@),
            old(self)@.wf() ==> final(self)@.wf(),
            old(self)@.wf() ==> final(self)@.sum_exact(),
    {
        let ghost orig: CacheModel = self@;
        let mut fresh_sum: u64 = 0;
        let mut i: usize = 0;
        while i < self.arena.len()
            invariant
                i <= self.arena@.len(),
                self.arena@.len() == orig.arena.len(),
                forall|j: int| 0 <= j < i ==> self.arena@[j] == halved(orig.arena)[j],
                forall|j: int| i <= j < self.arena@.len() ==> self.arena@[j] == orig.arena[j],
                self.index@ == orig.index,
                self.counter_sum == orig.counter_sum,
                self.evict_point == orig.evict_point,
                self.capacity == orig.capacity,
                fresh_sum == (if sum_counters(halved(orig.arena).take(i as int)) <= u64::MAX {
                    sum_counters(halved(orig.arena).take(i as int))
                } else {
                    u64::MAX as int
                }),
            decreases self.arena@.len() - i,
        {
            let n: Node = self.arena[i];
            let aged = Node { counter: n.counter / 2, ..n };
            self.arena.set(i, aged);
            if fresh_sum <= u64::MAX - aged.counter {
                fresh_sum = fresh_sum + aged.counter;
            } else {
                fresh_sum = u64::MAX;
            }
            proof {
                lemma_sum_take_step(halved(orig.arena), i as int);
                lemma_sum_nonneg(halved(orig.arena).take(i as int));
            }
            i = i + 1;
        }
        self.counter_sum = fresh_sum;
        proof {
            assert(self.arena@ =~= halved(orig.arena));
            assert(halved(orig.arena).take(orig.arena.len() as int) =~= halved(orig.arena));
            assert(self@ =~= decay_step(orig));
            if orig.wf() {
                lemma_sum_halved_le(orig.arena);
                lemma_sum_nonneg(halved(orig.arena));
            }
        }
    }

    /// The TTL sweep: walk the arena and delete every node whose
    /// timestamp has passed. After a removal the cursor stays put, since
    /// the slot now holds a different node; when nothing was removed
    /// (a stale tombstone at the cursor) the cursor advances.
    pub fn cleanup_expired(&mut self, now: u64)
        ensures
            final(self)@ == sweep_step(old(self)@, now),
            old(self)@.wf() ==> final(self)@.wf(),
    {
        let ghost orig: CacheModel = self@;
        let mut i: usize = 0;
        while i < self.arena.len()
            invariant
                sweep_from(self@, now, i as int) == sweep_step(orig, now),
                orig.wf() ==> self@.wf(),
            decreases self.arena@.len() - i,
        {
            let ghost prev: CacheModel = self@;
            let ghost pi: int = i as int;
            if now > self.arena[i].time_stamp {
                let key: u64 = self.arena[i].key;
                let len_before: usize = self.arena.len();
                self.double_swap_delete(key);
                proof {
                    lemma_delete_len(prev, key);
                    if self@.arena.len() < prev.arena.len() {
                        assert(sweep_from(prev, now, pi) == sweep_from(self@, now, pi));
                    } else {
                        assert(sweep_from(prev, now, pi) == sweep_from(self@, now, pi + 1));
                    }
                }
                if self.arena.len() == len_before {
                    i = i + 1;
                }
            } else {
                proof {
                    assert(sweep_from(prev, now, pi) == sweep_from(prev, now, pi + 1));
                }
                i = i + 1;
            }
        }
        proof {
            assert(sweep_from(self@, now, i as int) == self@);
        }
    }

    /// A deep copy of the whole state, taken by the writer to publish
    /// as the next read-only mirror.
    pub fn snapshot(&self) -> (c: Cache)
        ensures
            c@ == self@,
    {
        let arena2 = self.arena.clone();
        let c = Cache {
            arena: arena2,
            index: self.index.clone(),
            counter_sum: self.counter_sum,
            evict_point: self.evict_point,
            capacity: self.capacity,
        };
        proof {
            assert forall|i: int| 0 <= i < self.arena@.len() implies c.arena@[i]
                == self.arena@[i] by {
                assert(vstd::pervasive::cloned::<Node>(self.arena@[i], c.arena@[i]));
            }
            assert(c@ =~= self@);
        }
        c
    }

    /// Seconds since the Unix epoch, zero if the clock reads earlier.
    /// Relies on std::time::SystemTime::now and its duration arithmetic;
    /// the result depends on the wall clock, so nothing is promised of
    /// it, and every operation takes the instant as a plain argument.
    #[verifier::external_body]
    pub fn current_time() -> u64 {
        std::time::SystemTime::now().duration_since(
            std::time::UNIX_EPOCH,
        ).unwrap_or_default().as_secs()
    }

    /// Position and value of `k` under lazy validation: a hit only when
    /// the index entry still points at a slot holding `k`, so stale
    /// tombstones left by cliff eviction or expiry read as misses.
    pub fn lookup(&self, key: u64) -> (r: Option<u64>)
        ensures
            r == lookup_spec(self@, key),
    {
        if let Some(p) = self.index.get(&key) {
            let idx: usize = *p;
            if idx < self.arena.len() && self.arena[idx].key == key {
                return Some(self.arena[idx].value);
            }
        }
        None
    }
}

/// What a read observes on a given state: the stored value on a validated
/// hit, a miss otherwise.
pub open spec fn lookup_spec(m: CacheModel, k: u64) -> Option<u64> {
    if m.valid_at(k) {
        Some(m.arena[m.index[k] as int].value)
    } else {
        None
    }
}

} // verus!

//! The concurrency envelope around the ranked cache.
//!
//! A single writer owns the authoritative [`Cache`] behind vstd's
//! verified reader-writer lock — so the lock's invariant, that every
//! state it ever stores is well-formed, is machine-checked — and
//! publishes immutable snapshots of it through an atomically swapped
//! pointer; any number of readers load the current snapshot without
//! blocking and report their hits through a bounded, lossy signal
//! queue. Everything the envelope does to the cache itself is verified
//! ([`apply`], [`Cache::snapshot`]); only the pointer swap and the
//! queue are taken on trust.

use crate::cache::{
    climb_step, decay_step, delete_step, insert_step, membrane_step, sweep_step, update_step,
    Cache, CacheModel,
};
use std::sync::Arc;
use vstd::prelude::*;
use vstd::rwlock::RwLock;

verus! {

/// How many hit signals the queue holds before it starts dropping.
pub const SIGNAL_QUEUE_BOUND: usize = 10_000;

/// The invariant the writer lock maintains: the authoritative cache is
/// well-formed in every state the lock ever stores.
pub open spec fn main_pred() -> spec_fn(Cache) -> bool {
    |c: Cache| c@.wf()
}

#[verifier::external_type_specification]
#[verifier::external_body]
#[verifier::reject_recursive_types(T)]
pub struct ExSender<T>(crossbeam::channel::Sender<T>);

#[verifier::external_type_specification]
#[verifier::external_body]
#[verifier::reject_recursive_types(T)]
pub struct ExReceiver<T>(crossbeam::channel::Receiver<T>);

/// One mutation of the authoritative cache, as the writer applies it
/// under the lock.
pub enum WriteOp {
    Climb { key: u64, now: u64 },
    Insert { key: u64, value: u64, ttl_secs: u64, now: u64 },
    Delete { key: u64 },
    Update { key: u64, value: u64 },
    Membrane,
    Decay,
    Sweep { now: u64 },
}

/// The transition each [`WriteOp`] performs on the cache model.
pub open spec fn apply_step(m: CacheModel, op: WriteOp) -> CacheModel {
    match op {
        WriteOp::Climb { key, now } => climb_step(m, key, now),
        WriteOp::Insert { key, value, ttl_secs, now } => insert_step(m, key, value, ttl_secs, now),
        WriteOp::Delete { key } => delete_step(m, key),
        WriteOp::Update { key, value } => update_step(m, key, value),
        WriteOp::Membrane => membrane_step(m),
        WriteOp::Decay => decay_step(m),
        WriteOp::Sweep { now } => sweep_step(m, now),
    }
}

/// Dispatch one write operation to the cache it names.
pub fn apply(c: &mut Cache, op: WriteOp)
    ensures
        final(c)@ == apply_step(old(c)@, op),
        old(c)@.wf() ==> final(c)@.wf(),
{
    match op {
        WriteOp::Climb { key, now } => c.viscous_climb(key, now),
        WriteOp::Insert { key, value, ttl_secs, now } => c.gatsby_insert(
            key,
            value,
            ttl_secs,
            now,
        ),
        WriteOp::Delete { key } => c.double_swap_delete(key),
        WriteOp::Update { key, value } => c.update_value(key, value),
        WriteOp::Membrane => c.update_evict_point(),
        WriteOp::Decay => c.time_decay(),
        WriteOp::Sweep { now } => c.cleanup_expired(now),
    }
}

/// The atomically swapped read-only mirror. arc_swap's type cannot be
/// declared to the verifier (its generics carry the crate's own trait
/// bounds and a defaulted strategy parameter), so it sits behind this
/// opaque cell.
#[verifier::external_body]
pub struct MirrorCell {
    cell: arc_swap::ArcSwap<Cache>,
}

impl MirrorCell {
    /// Relies on arc_swap::ArcSwap::from_pointee to publish the first
    /// snapshot.
    #[verifier::external_body]
    fn new(c: Cache) -> MirrorCell {
        MirrorCell { cell: arc_swap::ArcSwap::from_pointee(c) }
    }

    /// Relies on arc_swap::ArcSwapAny::store to publish a snapshot
    /// atomically; readers already holding the previous one keep it.
    #[verifier::external_body]
    fn store(&self, c: Cache) {
        self.cell.store(Arc::new(c));
    }

    /// Relies on arc_swap::ArcSwapAny::load_full for a non-blocking
    /// load of the current snapshot. Which snapshot comes back depends
    /// on what the writer last published, so nothing is promised of
    /// it; the read path takes it as a plain argument.
    #[verifier::external_body]
    fn load(&self) -> Arc<Cache> {
        self.cell.load_full()
    }
}

/// Relies on crossbeam::channel::bounded for the lossy signal queue
/// that carries read hits back to the writer.
#[verifier::external_body]
fn new_signal_channel(cap: usize) -> (crossbeam::channel::Sender<u64>, crossbeam::channel::Receiver<
    u64,
>) {
    crossbeam::channel::bounded(cap)
}

/// Relies on crossbeam::channel::Sender::try_send: the hit signal is
/// queued if there is room and silently dropped otherwise, without
/// ever blocking the reader.
#[verifier::external_body]
fn send_signal(tx: &crossbeam::channel::Sender<u64>, key: u64) {
    let _ = tx.try_send(key);
}

/// Relies on crossbeam::channel::Receiver::try_recv: one queued hit
/// signal if any is ready, without blocking. Which key (if any) comes
/// back depends on what the readers enqueued, so nothing is promised
/// of it; the drain takes each as a plain value.
#[verifier::external_body]
fn recv_signal(rx: &crossbeam::channel::Receiver<u64>) -> Option<u64> {
    rx.try_recv().ok()
}

/// The dual cache: an authoritative [`Cache`] under the verified
/// writer lock, an immutable mirror snapshot for lock-free reads, and
/// the sending end of the signal queue.
pub struct DualCache {
    main: RwLock<Cache, spec_fn(Cache) -> bool>,
    mirror: MirrorCell,
    lazy_tx: crossbeam::channel::Sender<u64>,
}

impl DualCache {
    /// The writer lock is configured with [`main_pred`]: it only ever
    /// stores well-formed states.
    #[verifier::type_invariant]
    spec fn locked_wf(self) -> bool {
        self.main.pred() == main_pred()
    }

    /// A fresh cache and the receiving end of its signal queue. The
    /// host drains the receiver and feeds each key back through
    /// [`DualCache::process_read_signal`].
    pub fn new(capacity: usize) -> (Arc<DualCache>, crossbeam::channel::Receiver<u64>)
        requires
            1 <= capacity < usize::MAX,
    {
        let (tx, rx) = new_signal_channel(SIGNAL_QUEUE_BOUND);
        let initial = Cache::new(capacity);
        let mirror = MirrorCell::new(initial.snapshot());
        let main = RwLock::new(initial, Ghost(main_pred()));
        let dual = DualCache { main, mirror, lazy_tx: tx };
        (Arc::new(dual), rx)
    }

    /// Acquire the writer lock, apply one operation through the
    /// verified dispatcher, and give the (still well-formed) state
    /// back to the lock.
    fn write_locked(&self, op: WriteOp) {
        proof {
            use_type_invariant(self);
        }
        let (mut cache, handle) = self.main.acquire_write();
        apply(&mut cache, op);
        handle.release_write(cache);
    }

    /// The lock-free read path: load the current mirror snapshot, look
    /// the key up under lazy validation, and on a hit report it to the
    /// signal queue (lossily) and hand the value out. What comes back
    /// is exactly [`crate::cache::lookup_spec`] of whatever snapshot
    /// the load returned; which snapshot that is depends on the
    /// writer's last commit, so it is not promised here.
    pub fn get(&self, key: u64) -> Option<u64> {
        let snap: Arc<Cache> = self.mirror.load();
        let found = snap.lookup(key);
        if found.is_some() {
            send_signal(&self.lazy_tx, key);
        }
        found
    }

    /// Apply one drained hit signal to the authoritative cache.
    pub fn process_read_signal(&self, key: u64) {
        let now: u64 = Cache::current_time();
        self.write_locked(WriteOp::Climb { key, now });
    }

    /// Insert `key` under the writer lock.
    pub fn insert(&self, key: u64, value: u64, ttl_secs: u64) {
        let now: u64 = Cache::current_time();
        self.write_locked(WriteOp::Insert { key, value, ttl_secs, now });
    }

    /// Delete `key` under the writer lock.
    pub fn delete(&self, key: u64) {
        self.write_locked(WriteOp::Delete { key });
    }

    /// Run the membrane adjustment under the writer lock. This is the
    /// fast-cadence pass only: aging is [`DualCache::decay`] and the
    /// TTL sweep is [`DualCache::sweep_expired`], on whatever slower
    /// cadence the host chooses.
    pub fn maintenance(&self) {
        self.write_locked(WriteOp::Membrane);
    }

    /// Replace the value of `key` in place under the writer lock.
    pub fn update(&self, key: u64, value: u64) {
        self.write_locked(WriteOp::Update { key, value });
    }

    /// Halve every counter under the writer lock.
    pub fn decay(&self) {
        self.write_locked(WriteOp::Decay);
    }

    /// Delete every node expired at `now` under the writer lock.
    pub fn sweep_expired(&self, now: u64) {
        self.write_locked(WriteOp::Sweep { now });
    }

    /// Drain queued hit signals into promotions on the authoritative
    /// cache, at most `max_signals` in one call so a cycle's work
    /// stays bounded. Returns how many were consumed; signals dropped
    /// by a full queue are gone for good (the lossy contract).
    pub fn drain_signals(
        &self,
        rx: &crossbeam::channel::Receiver<u64>,
        max_signals: usize,
    ) -> (consumed: usize)
        ensures
            consumed <= max_signals,
    {
        let mut drained: usize = 0;
        while drained < max_signals
            invariant
                drained <= max_signals,
            decreases max_signals - drained,
        {
            match recv_signal(rx) {
                Some(key) => {
                    self.process_read_signal(key);
                    drained = drained + 1;
                },
                None => {
                    return drained;
                },
            }
        }
        drained
    }

    /// Publish a deep copy of the authoritative cache as the new
    /// mirror. Readers switch to it on their next load.
    pub fn commit(&self) {
        self.sync_mirror();
    }

    /// Take the snapshot under a read lock and swap it in atomically.
    fn sync_mirror(&self) {
        let read_handle = self.main.acquire_read();
        let snap = read_handle.borrow().snapshot();
        read_handle.release_read();
        self.mirror.store(snap);
    }
}

} // verus!

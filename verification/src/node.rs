use vstd::prelude::*;

verus! {

/// A single cache entry.
///
/// `counter` is the access score driving promotion and eviction decisions,
/// `time_stamp` the absolute expiry instant in seconds since the epoch.
/// The value is a plain handle; the payload it stands for lives with the
/// host.
#[derive(Clone, Copy, Debug, PartialEq, Eq, Structural)]
pub struct Node {
    pub key: u64,
    pub value: u64,
    pub counter: u64,
    pub time_stamp: u64,
}

} // verus!

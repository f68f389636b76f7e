//! Cooperative long-scan abort flag and a cross-thread `(done, total)` progress counter.
//!
//! Both are shared, lock-free cells that other threads may change at any moment, so reading one
//! promises nothing about what comes back: only `share` (another handle to the same cells) has a
//! contract beyond its types.

use std::sync::atomic::{AtomicBool, AtomicUsize, Ordering};
use std::sync::Arc;

use vstd::prelude::*;

verus! {

/// `Arc::clone`: another pointer to the same allocation, so the clone points to the same value
/// as `a`.
#[verifier::external_body]
fn share_arc<T>(a: &Arc<T>) -> (r: Arc<T>)
    ensures
        r == *a,
{
    Arc::clone(a)
}

/// A cooperative stop flag: [`StopFlag::requested`] becomes `true` once a long-running scan
/// should abort. Clones share the same underlying flag.
#[derive(Debug, Clone)]
pub struct StopFlag(Arc<AtomicBool>);

impl StopFlag {
    /// A flag that is not set.
    pub fn new() -> (r: StopFlag) {
        StopFlag(Arc::new(AtomicBool::new(false)))
    }

    /// `true` once a stop has been requested (through this handle or any clone of it).
    pub fn requested(&self) -> bool {
        self.0.load(Ordering::Relaxed)
    }

    /// Requests a stop.
    pub fn request(&self) {
        self.0.store(true, Ordering::Relaxed)
    }

    /// Another handle to this same flag.
    pub fn share(&self) -> (r: StopFlag)
        ensures
            r == *self,
    {
        StopFlag(share_arc(&self.0))
    }

    /// Clears the flag, e.g. before starting a new scan.
    pub fn reset(&self) {
        self.0.store(false, Ordering::Relaxed)
    }
}

/// The two counters behind a [`ScanProgress`].
#[derive(Debug)]
pub struct Counters {
    done: AtomicUsize,
    total: AtomicUsize,
}

/// A cloneable, cross-thread `(done, total)` byte counter for an in-progress scan. Clones share
/// the same counters.
#[derive(Debug, Clone)]
pub struct ScanProgress(Arc<Counters>);

impl ScanProgress {
    /// Counters at `(0, 0)`.
    pub fn new() -> (r: ScanProgress) {
        ScanProgress(Arc::new(Counters { done: AtomicUsize::new(0), total: AtomicUsize::new(0) }))
    }

    /// Starts a fresh scan of `total` bytes, zeroing `done`.
    pub fn reset(&self, total: usize) {
        self.0.done.store(0, Ordering::Relaxed);
        self.0.total.store(total, Ordering::Relaxed);
    }

    /// Another handle to these same counters.
    pub fn share(&self) -> (r: ScanProgress)
        ensures
            r == *self,
    {
        ScanProgress(share_arc(&self.0))
    }

    /// Records `bytes` more as scanned.
    pub fn add(&self, bytes: usize) {
        self.0.done.fetch_add(bytes, Ordering::Relaxed);
    }

    /// `(bytes scanned so far, total bytes considered by the current/last scan)`.
    pub fn get(&self) -> (usize, usize) {
        (self.0.done.load(Ordering::Relaxed), self.0.total.load(Ordering::Relaxed))
    }
}

} // verus!

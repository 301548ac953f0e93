//! stop flag for the daemon's serve loop, set by a signal handler or
//! another thread. clones share one flag

use std::sync::atomic::{AtomicBool, Ordering};
use std::sync::Arc;
use vstd::prelude::*;

verus! {

/// a shared stop flag. the value is shared with every clone and may be set
/// from another thread at any time, so a read promises nothing about it
#[derive(Clone, Default)]
pub struct Shutdown(Arc<AtomicBool>);

impl Shutdown {
    pub fn new() -> (s: Self) {
        Shutdown(Arc::new(AtomicBool::new(false)))
    }

    /// ask the serve loop to stop after its next wakeup
    pub fn trigger(&self) {
        self.0.store(true, Ordering::SeqCst);
    }

    pub fn is_triggered(&self) -> (b: bool) {
        self.0.load(Ordering::SeqCst)
    }
}

} // verus!

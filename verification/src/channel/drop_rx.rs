//! Dropping the "receive" half.

use crate::channel::pass::Pass;
use crate::channel::DebouncerRx;
use vstd::prelude::*;

verus! {

/// A pass to the lock for counting one receiver out, which nothing else is issued.
pub struct LeavingRx(Pass);

impl LeavingRx {
    /// The pass, for nothing but the lock.
    pub(crate) fn into_pass(self) -> Pass
        opens_invariants none
        no_unwind
    {
        self.0
    }
}

impl<D> Drop for DebouncerRx<D> {
    fn drop(&mut self)
        ensures
            old(self).debouncer().loses_rx(),
        opens_invariants none
        no_unwind
    {
        self.debouncer.leave_rx(LeavingRx(Pass::issue()))
    }
}

} // verus!

//! Dropping the "send" half.

use crate::channel::pass::Pass;
use crate::channel::DebouncerTx;
use vstd::prelude::*;

verus! {

/// A pass to the lock for counting one sender out, which nothing else is issued.
pub struct LeavingTx(Pass);

impl LeavingTx {
    /// The pass, for nothing but the lock.
    pub(crate) fn into_pass(self) -> Pass
        opens_invariants none
        no_unwind
    {
        self.0
    }
}

impl<R, D, F> Drop for DebouncerTx<R, D, F> {
    fn drop(&mut self)
        ensures
            old(self).debouncer().loses_tx(),
        opens_invariants none
        no_unwind
    {
        self.debouncer.leave_tx(LeavingTx(Pass::issue()))
    }
}

} // verus!

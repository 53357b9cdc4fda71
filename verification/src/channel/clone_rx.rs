//! Cloning the "receive" half.

use crate::channel::pass::Pass;
use crate::channel::DebouncerRx;
use vstd::prelude::*;

verus! {

/// A pass to the lock for counting one receiver in, which nothing else is issued.
pub struct JoiningRx(Pass);

impl JoiningRx {
    /// The pass, for nothing but the lock.
    pub(crate) fn into_pass(self) -> Pass
        opens_invariants none
        no_unwind
    {
        self.0
    }
}

impl<D> Clone for DebouncerRx<D> {
    fn clone(&self) -> (copy: Self)
        ensures
            copy.debouncer() == self.debouncer(),
            self.debouncer().gains_rx(),
    {
        self.debouncer.join_rx(JoiningRx(Pass::issue()));
        Self { debouncer: self.debouncer.clone() }
    }
}

} // verus!

//! Cloning the "send" half.

use crate::channel::pass::Pass;
use crate::channel::DebouncerTx;
use std::marker::PhantomData;
use vstd::prelude::*;

verus! {

/// A pass to the lock for counting one sender in, which nothing else is issued.
pub struct JoiningTx(Pass);

impl JoiningTx {
    /// The pass, for nothing but the lock.
    pub(crate) fn into_pass(self) -> Pass
        opens_invariants none
        no_unwind
    {
        self.0
    }
}

impl<R, D, F> Clone for DebouncerTx<R, D, F> where F: Clone {
    fn clone(&self) -> (copy: Self)
        ensures
            copy.debouncer() == self.debouncer(),
            cloned(self.fold_function(), copy.fold_function()),
            self.debouncer().gains_tx(),
    {
        self.debouncer.join_tx(JoiningTx(Pass::issue()));
        Self {
            debouncer: self.debouncer.clone(),
            fold: self.fold.clone(),
            _raw_event_marker: PhantomData,
        }
    }
}

} // verus!

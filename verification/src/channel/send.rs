//! Sending raw events through a half.

use crate::channel::pass::Pass;
use crate::channel::DebouncerTx;
use crate::error::SendError;
use crate::state::DebouncerState;
use vstd::prelude::*;

verus! {

/// A pass to the lock for sending one event, which nothing else is issued.
pub struct Sending(Pass);

impl Sending {
    /// The pass, for nothing but the lock.
    pub(crate) fn into_pass(self) -> Pass
        opens_invariants none
        no_unwind
    {
        self.0
    }
}

impl<R, D, F> DebouncerTx<R, D, F> where F: Fn(Option<D>, R) -> D {
    /// Send a raw event to the debouncer, which will be grouped with other raw events sent at a
    /// similar time. Grouping is performed using the "fold" function this `DebouncerTx` was created
    /// with.
    ///
    /// An error, which hands the event back, is returned if there are no [`DebouncerRx`]s
    /// associated with the debouncer left to receive events. The event is added to the state that is
    /// found under the debouncer's lock, as [`DebouncerState::push`] does, and one receiver is woken
    /// up if the event starts a new group.
    pub fn send(&self, event: R) -> (sent: Result<(), SendError<R>>)
        requires
            forall|acc: Option<D>| call_requires(self.fold_function(), (acc, event)),
        ensures
            exists|before: DebouncerState<D>, after: DebouncerState<D>, now: nat|
                #![trigger self.debouncer().pushes(before, after, event, self.fold_function(), now, sent)]
                self.debouncer().pushes(before, after, event, self.fold_function(), now, sent),
    {
        assert(self.debouncer() == *self.debouncer && self.fold_function() == self.fold);
        self.debouncer.push(Sending(Pass::issue()), event, &self.fold)
    }
}

} // verus!

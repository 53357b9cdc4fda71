//! Receiving a debounced event through a half without waiting for it.

use crate::channel::pass::Pass;
use crate::channel::DebouncerRx;
use crate::error::ReceiveError;
use crate::state::DebouncerState;
use vstd::prelude::*;

verus! {

/// A pass to the lock for trying to receive one event, which nothing else is issued.
pub struct TryReceiving(Pass);

impl TryReceiving {
    /// The pass, for nothing but the lock.
    pub(crate) fn into_pass(self) -> Pass
        opens_invariants none
        no_unwind
    {
        self.0
    }
}

impl<D> DebouncerRx<D> {
    /// An alternative to [`DebouncerRx::recv`] which returns `None` if there is not a debounced
    /// event immediately available, instead of waiting for it to become available.
    ///
    /// An error is returned if there are no more [`DebouncerTx`]s left to send events and there are
    /// no more events left to receive. What is received is taken from the state that is found under
    /// the debouncer's lock, as [`DebouncerState::try_pop`] does.
    pub fn try_recv(&self) -> (received: Result<Option<D>, ReceiveError>)
        ensures
            exists|before: DebouncerState<D>, after: DebouncerState<D>, now: nat|
                {
                    &&& #[trigger] self.debouncer().turns_at(before, after, now)
                    &&& self.debouncer().turns(before, after)
                    &&& self.debouncer().clock_shows(now)
                    &&& received == before@.received(now)
                    &&& after@ == before@.after_receive(now)
                },
    {
        assert(self.debouncer() == *self.debouncer);
        self.debouncer.try_pop(TryReceiving(Pass::issue()))
    }
}

} // verus!

//! Receiving a debounced event through a half.

use crate::channel::pass::Pass;
use crate::channel::DebouncerRx;
use crate::debouncer::Look;
use crate::error::ReceiveError;
use crate::state::{DebouncerState, PopStep};
use vstd::prelude::*;

verus! {

/// A pass to the lock for receiving one event, which nothing else is issued.
pub struct Receiving(Pass);

impl Receiving {
    /// The pass, for nothing but the lock.
    pub(crate) fn into_pass(self) -> Pass
        opens_invariants none
        no_unwind
    {
        self.0
    }
}

impl<D> DebouncerRx<D> {
    /// Receive a debounced event from the debouncer. If there is not a debounced event available to
    /// be received, the function will wait for one.
    ///
    /// An error is returned if there are no more [`DebouncerTx`]s left to send events and there are
    /// no more events left to receive. The receiver looks at the state that it finds under the
    /// debouncer's lock, as [`DebouncerState::pop_step`] does, and waits as that says until it is
    /// given an event or finds the debouncer closed. The waits are counted, and after `u128::MAX` of
    /// them the receiver gives up.
    pub fn recv(&self) -> (received: Result<D, ReceiveError>)
        ensures
            exists|looks: Seq<Look<'_, D>>| #[trigger]
                self.debouncer().looks(looks) && match received {
                    Ok(event) => looks.last().step() == PopStep::Event(event),
                    Err(ReceiveError) => {
                        ||| looks.last().step() is Closed
                        ||| looks.last().says_wait() && looks.len() > u128::MAX
                    },
                },
    {
        assert(self.debouncer() == *self.debouncer);
        self.debouncer.pop(Receiving(Pass::issue()))
    }
}

} // verus!

//! The two halves of a debouncer.
//!
//! A call on a half is issued one pass to the lock of the debouncer, good for one thing only, and
//! hands it to the [`Debouncer`] that the halves share. Each kind of pass is issued in a module of its
//! own, so what a call on a half can do to the state under the lock is limited to what it is for.

pub mod clone_rx;
pub mod clone_tx;
pub mod drop_rx;
pub mod drop_tx;
pub mod pass;
pub mod recv;
pub mod send;
pub mod try_recv;

use crate::debouncer::Debouncer;
use crate::state::{DebouncerState, StateModel};
use std::marker::PhantomData;
use std::sync::Arc;
use std::time::Duration;
use vstd::prelude::*;

verus! {

/// Creates a new debouncer for deduplicating groups of "raw" events which occur at a similar time.
/// The debouncer is comprised of two halves; a [`DebouncerTx`] for sending raw events to the
/// debouncer, and a [`DebouncerRx`] for receiving grouped (debounced) events from the debouncer.
///
/// When a raw event is sent through the `DebouncerTx`, future raw events which are sent before the
/// given `debounce_time` has elapsed are considered part of the same group. For example, if the
/// `debounce_time` is 1 second, all raw events which are sent less than one second after the first
/// are considered part of the same group.
///
/// The `DebouncerRx` receives the grouped events from the debouncer once the `debounce_time` has
/// elapsed for the event. Events are grouped using the given `fold` function, which takes a
/// previous grouped event (or "accumulator") and combines it with a new raw event. Some pre-written
/// fold functions are available in the [`fold`](crate::fold) module.
///
/// Both the `DebouncerTx` and `DebouncerRx` may be cloned, allowing multiple event senders and
/// multiple event receivers for a single debouncer.
pub fn debouncer<R, D, F>(debounce_time: Duration, fold: F) -> (halves: (
    DebouncerTx<R, D, F>,
    DebouncerRx<D>,
)) where F: Fn(Option<D>, R) -> D
    ensures
        halves.0.sends_to(halves.1),
        halves.0.debouncer().debounce_time() == debounce_time,
        halves.0.fold_function() == fold,
        exists|initial: DebouncerState<D>| #[trigger]
            halves.0.debouncer().starts_as(initial) && initial@ == StateModel::<D>::initial(1, 1),
{
    let shared_state = Arc::new(Debouncer::new(debounce_time, 1, 1));
    let tx = DebouncerTx {
        debouncer: shared_state.clone(),
        fold,
        _raw_event_marker: PhantomData,
    };
    let rx = DebouncerRx { debouncer: shared_state };
    assert(tx.debouncer() == *shared_state);
    (tx, rx)
}

/// The "send" half of a debouncer, through which raw events are sent to be debounced. To create a
/// new debouncer, see the [`debouncer`] function. To send raw events, see [`DebouncerTx::send`].
#[verifier::reject_recursive_types(D)]
pub struct DebouncerTx<R, D, F> {
    debouncer: Arc<Debouncer<D>>,
    fold: F,
    _raw_event_marker: PhantomData<R>,
}

impl<R, D, F> DebouncerTx<R, D, F> {
    /// The debouncer to which this half belongs.
    pub closed spec fn debouncer(&self) -> Debouncer<D> {
        *self.debouncer
    }

    /// The fold function by which events sent through this half are grouped.
    pub closed spec fn fold_function(&self) -> F {
        self.fold
    }

    /// Whether what is sent through this half is received by `rx`.
    pub open spec fn sends_to(&self, rx: DebouncerRx<D>) -> bool {
        self.debouncer() == rx.debouncer()
    }
}

/// The "receive" half of a debouncer, which receives events which have been debounced by grouping
/// raw events which occurred close together in time. To create a new debouncer, see the
/// [`debouncer`] function. To receive debounced events, see [`DebouncerRx::recv`] or
/// [`DebouncerRx::try_recv`].
#[verifier::reject_recursive_types(D)]
pub struct DebouncerRx<D> {
    debouncer: Arc<Debouncer<D>>,
}

impl<D> DebouncerRx<D> {
    /// The debouncer to which this half belongs.
    pub closed spec fn debouncer(&self) -> Debouncer<D> {
        *self.debouncer
    }
}

} // verus!

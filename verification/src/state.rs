//! The state which the senders and receivers of one debouncer share, and the rules by which each
//! of them changes it.
//!
//! Every function here runs while its caller holds the debouncer's lock. It is told the time, and
//! what it does depends on the state and its arguments alone.

use crate::error::{CountOverflowError, ReceiveError, SendError};
use crate::queue::{lemma_skip_lost_front, lemma_skip_lost_ready_front};
use crate::queue::{fold_model, joined_so_far, joins_last, push_outcome, pushes};
use crate::queue::{skip_lost, skip_lost_ready};
use crate::queue::{EventAcc, EventAccQueue, FoldModel, PushOutcome};
use vstd::prelude::*;

verus! {

/// What a receiver which is prepared to wait has to do next.
pub enum PopStep<T> {
    /// Return this debounced event.
    Event(T),
    /// Give up: nothing is left to receive, and nobody is left to send more.
    Closed,
    /// Wait until another event has been sent or the last sender has gone.
    WaitForPush,
    /// Wait until this many nanoseconds have passed or the last sender has gone.
    WaitForReady(u128),
}

/// The number of handles left when one of `count` is dropped.
pub open spec fn one_less(count: nat) -> nat {
    if count == 0 {
        0
    } else {
        (count - 1) as nat
    }
}

/// The state of a debouncer as a mathematical value.
#[verifier::ext_equal]
pub struct StateModel<T> {
    /// The groups which have not been received yet, oldest first.
    pub groups: Seq<EventAcc<T>>,
    /// The number of senders.
    pub txs: nat,
    /// The number of receivers.
    pub rxs: nat,
}

impl<T> StateModel<T> {
    /// A state with nothing to receive.
    pub open spec fn initial(txs: nat, rxs: nat) -> Self {
        StateModel { groups: Seq::empty(), txs, rxs }
    }

    /// The same senders and receivers with other groups.
    pub open spec fn with_groups(self, groups: Seq<EventAcc<T>>) -> Self {
        StateModel { groups, txs: self.txs, rxs: self.rxs }
    }

    /// The same groups and receivers with another number of senders.
    pub open spec fn with_txs(self, txs: nat) -> Self {
        StateModel { groups: self.groups, txs, rxs: self.rxs }
    }

    /// The same groups and senders with another number of receivers.
    pub open spec fn with_rxs(self, rxs: nat) -> Self {
        StateModel { groups: self.groups, txs: self.txs, rxs }
    }

    /// Sending `raw_event` at the time `now` turns this state into `post` and has the given result.
    /// Without a receiver the event is handed back and nothing changes; otherwise the event is
    /// taken into the groups.
    pub open spec fn sends<R>(
        self,
        post: Self,
        raw_event: R,
        f: FoldModel<T, R>,
        now: nat,
        debounce_time: nat,
        result: Result<PushOutcome, SendError<R>>,
    ) -> bool {
        if self.rxs == 0 {
            &&& result == Err::<PushOutcome, SendError<R>>(SendError(raw_event))
            &&& post == self
        } else {
            &&& result == Ok::<PushOutcome, SendError<R>>(
                push_outcome(self.groups, now),
            )
            &&& post == self.with_groups(post.groups)
            &&& pushes(self.groups, post.groups, raw_event, f, now, debounce_time)
        }
    }

    /// The groups from which the next event is taken at the time `now`: those at the front which
    /// have lost their events are passed over, for as long as they could be received.
    pub open spec fn candidates(self, now: nat) -> Seq<EventAcc<T>> {
        if self.txs == 0 {
            skip_lost(self.groups)
        } else {
            skip_lost_ready(self.groups, now)
        }
    }

    /// Whether an event can be received at the time `now`. While there are senders it has to be
    /// ready, since they may still add to it; once they have gone there is no reason to wait.
    pub open spec fn deliverable(self, now: nat) -> bool {
        let candidates = self.candidates(now);
        candidates.len() > 0 && (self.txs == 0 || candidates[0].ready_time <= now)
    }

    /// What a receiver which does not wait is told at the time `now`.
    pub open spec fn received(self, now: nat) -> Result<Option<T>, ReceiveError> {
        if self.deliverable(now) {
            Ok(self.candidates(now)[0].acc)
        } else if self.txs == 0 {
            Err(ReceiveError)
        } else {
            Ok(None)
        }
    }

    /// What is left after a receiver has tried to receive at the time `now`.
    pub open spec fn after_receive(self, now: nat) -> Self {
        if self.deliverable(now) {
            self.with_groups(self.candidates(now).drop_first())
        } else {
            self.with_groups(self.candidates(now))
        }
    }

    /// What a receiver which is prepared to wait has to do at the time `now`.
    pub open spec fn step(self, now: nat) -> PopStep<T> {
        match self.received(now) {
            Ok(Some(event)) => PopStep::Event(event),
            Err(ReceiveError) => PopStep::Closed,
            Ok(None) => if self.candidates(now).len() == 0 {
                PopStep::WaitForPush
            } else {
                PopStep::WaitForReady((self.candidates(now)[0].ready_time - now) as u128)
            },
        }
    }
}

/// The queue of a debouncer together with the number of its senders and receivers.
pub struct DebouncerState<T> {
    acc_queue: EventAccQueue<T>,
    tx_count: usize,
    rx_count: usize,
}

impl<T> View for DebouncerState<T> {
    type V = StateModel<T>;

    closed spec fn view(&self) -> StateModel<T> {
        StateModel {
            groups: self.acc_queue@,
            txs: self.tx_count as nat,
            rxs: self.rx_count as nat,
        }
    }
}

impl<T> DebouncerState<T> {
    /// Makes a state with nothing to receive.
    pub fn new(tx_count: usize, rx_count: usize) -> (state: Self)
        ensures
            state@ == StateModel::<T>::initial(tx_count as nat, rx_count as nat),
    {
        Self { acc_queue: EventAccQueue::new(), tx_count, rx_count }
    }

    /// Whether there is no sender left.
    pub fn has_no_txs(&self) -> (none: bool)
        ensures
            none == (self@.txs == 0),
    {
        self.tx_count == 0
    }

    /// Counts one more sender.
    pub fn add_tx(&mut self) -> (added: Result<(), CountOverflowError>)
        ensures
            match added {
                Ok(()) => {
                    &&& old(self)@.txs < usize::MAX
                    &&& final(self)@ == old(self)@.with_txs(old(self)@.txs + 1)
                },
                Err(CountOverflowError) => {
                    &&& old(self)@.txs == usize::MAX
                    &&& final(self)@ == old(self)@
                },
            },
    {
        match self.tx_count.checked_add(1) {
            Some(count) => {
                self.tx_count = count;
                Ok(())
            },
            None => Err(CountOverflowError),
        }
    }

    /// Counts one sender less and returns how many are left. The count stops at zero.
    pub fn remove_tx(&mut self) -> (left: usize)
        ensures
            left == one_less(old(self)@.txs),
            final(self)@ == old(self)@.with_txs(left as nat),
        opens_invariants none
        no_unwind
    {
        if self.tx_count > 0 {
            self.tx_count = self.tx_count - 1;
        }
        self.tx_count
    }

    /// Whether there is no receiver left.
    pub fn has_no_rxs(&self) -> (none: bool)
        ensures
            none == (self@.rxs == 0),
    {
        self.rx_count == 0
    }

    /// Counts one more receiver.
    pub fn add_rx(&mut self) -> (added: Result<(), CountOverflowError>)
        ensures
            match added {
                Ok(()) => {
                    &&& old(self)@.rxs < usize::MAX
                    &&& final(self)@ == old(self)@.with_rxs(old(self)@.rxs + 1)
                },
                Err(CountOverflowError) => {
                    &&& old(self)@.rxs == usize::MAX
                    &&& final(self)@ == old(self)@
                },
            },
    {
        match self.rx_count.checked_add(1) {
            Some(count) => {
                self.rx_count = count;
                Ok(())
            },
            None => Err(CountOverflowError),
        }
    }

    /// Counts one receiver less and returns how many are left. The count stops at zero.
    pub fn remove_rx(&mut self) -> (left: usize)
        ensures
            left == one_less(old(self)@.rxs),
            final(self)@ == old(self)@.with_rxs(left as nat),
        opens_invariants none
        no_unwind
    {
        if self.rx_count > 0 {
            self.rx_count = self.rx_count - 1;
        }
        self.rx_count
    }

    /// Takes in a raw event which was sent at the time `now`. If there is no receiver left, the
    /// event is returned in the error so that it is not lost.
    pub fn push<R, F>(
        &mut self,
        raw_event: R,
        fold: F,
        now: u128,
        debounce_time: u128,
    ) -> (pushed: Result<PushOutcome, SendError<R>>) where F: FnOnce(Option<T>, R) -> T
        requires
            old(self)@.rxs > 0 ==> fold.requires(
                (joined_so_far(old(self)@.groups, now as nat), raw_event),
            ),
            old(self)@.rxs > 0 && !joins_last(old(self)@.groups, now as nat) ==> now
                + debounce_time <= u128::MAX,
        ensures
            old(self)@.sends(
                final(self)@,
                raw_event,
                fold_model(fold),
                now as nat,
                debounce_time as nat,
                pushed,
            ),
    {
        if self.has_no_rxs() {
            return Err(SendError(raw_event));
        }
        Ok(self.acc_queue.push_latest(raw_event, fold, now, debounce_time))
    }

    /// Receives a debounced event at the time `now`, without waiting for one.
    pub fn try_pop(&mut self, now: u128) -> (popped: Result<Option<T>, ReceiveError>)
        ensures
            popped == old(self)@.received(now as nat),
            final(self)@ == old(self)@.after_receive(now as nat),
    {
        // If there is no sender left, return any remaining events, ready or not, and errors once
        // there are none.
        if self.has_no_txs() {
            return match self.acc_queue.pop_oldest_acc_discard_none() {
                Some(event) => Ok(Some(event)),
                None => Err(ReceiveError),
            };
        }
        // Loop in case the accumulator at the front has lost its events, which happens if the fold
        // function panicked.
        loop
            invariant
                self@ == old(self)@.with_groups(self@.groups),
                old(self)@.txs > 0,
                self@.candidates(now as nat) == old(self)@.candidates(now as nat),
            decreases self@.groups.len(),
        {
            let first_acc_ready = match self.acc_queue.peek_oldest() {
                Some(peeked_acc) => peeked_acc.ready_time <= now,
                None => false,
            };
            if !first_acc_ready {
                return Ok(None);
            }
            if let Some(popped_acc) = self.acc_queue.pop_oldest() {
                if let Some(event) = popped_acc.into_acc() {
                    return Ok(Some(event));
                }
            }
        }
    }

    /// Receives a debounced event at the time `now`, or says how to wait for one.
    pub fn pop_step(&mut self, now: u128) -> (step: PopStep<T>)
        ensures
            step == old(self)@.step(now as nat),
            final(self)@ == old(self)@.after_receive(now as nat),
    {
        proof {
            lemma_skip_lost_front(self@.groups);
            lemma_skip_lost_ready_front(self@.groups, now as nat);
        }
        match self.try_pop(now) {
            Ok(Some(event)) => PopStep::Event(event),
            Err(ReceiveError) => PopStep::Closed,
            Ok(None) => match self.acc_queue.peek_oldest() {
                Some(peeked_acc) => PopStep::WaitForReady(peeked_acc.ready_time - now),
                None => PopStep::WaitForPush,
            },
        }
    }
}

} // verus!

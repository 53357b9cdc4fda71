//! What the halves of a debouncer share.
//!
//! Every function here which changes the state under the lock is handed a pass, which it uses up to
//! take hold of the lock. It applies a rule of [`DebouncerState`] to the state that it finds there, and
//! lets go of the lock. Its contract says which state the lock handed out and which one was left under
//! it in that same hold.

use crate::channel::clone_rx::JoiningRx;
use crate::channel::clone_tx::JoiningTx;
use crate::channel::drop_rx::LeavingRx;
use crate::channel::drop_tx::LeavingTx;
use crate::channel::pass::Pass;
use crate::channel::recv::Receiving;
use crate::channel::send::Sending;
use crate::channel::try_recv::TryReceiving;
use crate::error::{ReceiveError, SendError};
use crate::queue::{fold_model, push_outcome, PushOutcome};
use crate::state::{one_less, DebouncerState, PopStep, StateModel};
use crate::sync::{Hold, Monitor};
use crate::time::{at_most_max, can_pass, duration_nanos, max_duration_nanos};
use crate::time::{duration_of, nanos_of, nanos_since};
use std::sync::MutexGuard;
use std::time::{Duration, Instant};
use vstd::prelude::*;

verus! {

/// One look of a receiver at the state under the lock: its hold of the lock, as it was at the end,
/// with the state that it found, the time of the look, and the state when it was done.
#[verifier::reject_recursive_types(T)]
pub struct Look<'a, T> {
    pub hold: Hold<'a, DebouncerState<T>>,
    pub before: DebouncerState<T>,
    pub now: nat,
    pub after: DebouncerState<T>,
}

impl<'a, T> Look<'a, T> {
    /// What the receiver had to do next.
    pub open spec fn step(self) -> PopStep<T> {
        self.before@.step(self.now)
    }

    /// Whether the receiver had to wait.
    pub open spec fn says_wait(self) -> bool {
        self.step() is WaitForPush || self.step() is WaitForReady
    }
}

/// What the two halves of a debouncer, and all their clones, share.
#[verifier::reject_recursive_types(T)]
pub struct Debouncer<T> {
    monitor: Monitor<DebouncerState<T>>,
    debounce_time: Duration,
    /// The instant from which the debouncer counts time.
    origin: Instant,
}

impl<T> Debouncer<T> {
    /// How long a group stays open after its first event.
    pub closed spec fn debounce_time(self) -> Duration {
        self.debounce_time
    }

    /// The state under its lock and the conditions on which receivers wait.
    pub closed spec fn monitor(self) -> Monitor<DebouncerState<T>> {
        self.monitor
    }

    /// The debouncer can have been made with this state.
    pub open spec fn starts_as(self, state: DebouncerState<T>) -> bool {
        self.monitor().made_around(state)
    }

    /// In one hold of the lock, the state `before` can be found under it and the state `after` left
    /// under it.
    pub open spec fn turns(self, before: DebouncerState<T>, after: DebouncerState<T>) -> bool {
        self.monitor().turns(before, after)
    }

    /// The instant from which the debouncer counts time.
    pub closed spec fn origin(self) -> Instant {
        self.origin
    }

    /// The clock of the debouncer can show this time, in nanoseconds: so many have passed since its
    /// origin.
    pub open spec fn clock_shows(self, now: nat) -> bool {
        can_pass(self.origin(), now)
    }

    /// The clock can be read as showing the time `now` during the hold for which the lock handed out
    /// the guard `found`.
    pub open spec fn read_during(
        self,
        found: MutexGuard<'_, DebouncerState<T>>,
        now: nat,
    ) -> bool {
        exists|hold: Hold<'_, DebouncerState<T>>, reading: u128| #[trigger]
            call_ensures(Debouncer::<T>::now_during, (&self, &hold), reading) && hold.found()
                == found && reading as nat == now
    }

    /// In one hold of the lock, the state `before` can be found under it, the time `now` read from the
    /// clock, and the state `after` left under it.
    pub open spec fn turns_at(
        self,
        before: DebouncerState<T>,
        after: DebouncerState<T>,
        now: nat,
    ) -> bool {
        exists|hold: Hold<'_, DebouncerState<T>>|
            {
                &&& #[trigger] self.monitor().lets_go(hold)
                &&& self.monitor().enters(hold.found())
                &&& self.monitor().spans(hold, before, after)
                &&& self.read_during(hold.found(), now)
            }
    }

    /// A sender is counted in, unless there are as many as can be counted, when nothing changes.
    pub open spec fn gains_tx(self) -> bool {
        exists|before: DebouncerState<T>, after: DebouncerState<T>| #[trigger]
            self.turns(before, after) && after@ == if before@.txs < usize::MAX {
                before@.with_txs(before@.txs + 1)
            } else {
                before@
            }
    }

    /// A receiver is counted in, unless there are as many as can be counted, when nothing changes.
    pub open spec fn gains_rx(self) -> bool {
        exists|before: DebouncerState<T>, after: DebouncerState<T>| #[trigger]
            self.turns(before, after) && after@ == if before@.rxs < usize::MAX {
                before@.with_rxs(before@.rxs + 1)
            } else {
                before@
            }
    }

    /// A sender is counted out. All receivers which wait are woken up if it was the last one.
    pub open spec fn loses_tx(self) -> bool {
        exists|before: DebouncerState<T>, after: DebouncerState<T>|
            {
                &&& #[trigger] self.turns(before, after)
                &&& after@ == before@.with_txs(one_less(before@.txs))
                &&& after@.txs == 0 ==> self.monitor().wakes_all()
            }
    }

    /// A receiver is counted out.
    pub open spec fn loses_rx(self) -> bool {
        exists|before: DebouncerState<T>, after: DebouncerState<T>| #[trigger]
            self.turns(before, after) && after@ == before@.with_rxs(one_less(before@.rxs))
    }

    /// Sending `event` at the time `now` finds the state `before` and leaves the state `after`, with
    /// the given result. A receiver which waits for events is woken up if the event starts a new
    /// group.
    pub open spec fn pushes<R, F>(
        self,
        before: DebouncerState<T>,
        after: DebouncerState<T>,
        event: R,
        fold: F,
        now: nat,
        sent: Result<(), SendError<R>>,
    ) -> bool where F: Fn(Option<T>, R) -> T {
        let outcome = push_outcome(before@.groups, now);
        &&& self.turns(before, after)
        &&& self.clock_shows(now)
        &&& before@.sends(
            after@,
            event,
            fold_model(fold),
            now,
            duration_nanos(self.debounce_time()),
            with_outcome(sent, outcome),
        )
        &&& sent is Ok && outcome is NewAcc ==> self.monitor().wakes_one()
    }

    /// After the look the receiver waited as the look told it, and was then handed the guard
    /// `found`.
    pub open spec fn waits_after(
        self,
        look: Look<'_, T>,
        found: MutexGuard<'_, DebouncerState<T>>,
    ) -> bool {
        match look.step() {
            PopStep::WaitForPush => self.monitor().waits_for_queue(look.hold, found),
            PopStep::WaitForReady(wait_time) => exists|timeout: Duration| #[trigger]
                self.monitor().waits_for_event(look.hold, timeout, found) && duration_nanos(timeout)
                    == at_most_max(wait_time as nat),
            _ => false,
        }
    }

    /// The receiver found the one state and left the other in one hold of the lock, at a time that it
    /// read from the clock during that hold.
    pub open spec fn is_look(self, look: Look<'_, T>) -> bool {
        &&& self.monitor().spans(look.hold, look.before, look.after)
        &&& self.read_during(look.hold.found(), look.now)
        &&& self.clock_shows(look.now)
        &&& look.after@ == look.before@.after_receive(look.now)
    }

    /// The looks were taken one after the other, and the receiver waited between them as each look
    /// told it.
    pub open spec fn waits_through(self, looks: Seq<Look<'_, T>>) -> bool {
        &&& forall|i: int| 0 <= i < looks.len() ==> self.is_look(#[trigger] looks[i])
        &&& forall|i: int|
            0 < i < looks.len() ==> self.waits_after(looks[i - 1], (#[trigger] looks[i]).hold.found())
    }

    /// The receiver took these looks, of which there is at least one: it used up a pass for the first,
    /// and let go of the lock after the last.
    pub open spec fn looks(self, looks: Seq<Look<'_, T>>) -> bool {
        &&& looks.len() > 0
        &&& self.monitor().enters(looks[0].hold.found())
        &&& self.waits_through(looks)
        &&& self.monitor().lets_go(looks.last().hold)
    }

    pub(crate) fn new(debounce_time: Duration, tx_count: usize, rx_count: usize) -> (debouncer: Self)
        ensures
            debouncer.debounce_time() == debounce_time,
            exists|initial: DebouncerState<T>| #[trigger]
                debouncer.starts_as(initial) && initial@ == StateModel::<T>::initial(
                    tx_count as nat,
                    rx_count as nat,
                ),
    {
        let initial = DebouncerState::new(tx_count, rx_count);
        let ghost initial_state = initial;
        let debouncer = Self {
            monitor: Monitor::new(initial),
            debounce_time,
            origin: Instant::now(),
        };
        assert(debouncer.starts_as(initial_state));
        debouncer
    }

    fn lock_state(&self, pass: Pass) -> (hold: Hold<'_, DebouncerState<T>>)
        ensures
            self.monitor().held_by(hold),
            self.monitor().enters(hold.found()),
            self.monitor().hands_out(hold.found()),
            hold.guard() == hold.found(),
        opens_invariants none
        no_unwind
    {
        self.monitor.lock(pass)
    }

    fn unlock_state(&self, hold: Hold<'_, DebouncerState<T>>)
        requires
            self.monitor().held_by(hold),
        ensures
            self.monitor().lets_go(hold),
        opens_invariants none
        no_unwind
    {
        self.monitor.unlock(hold)
    }

    /// The time now, in nanoseconds since the debouncer was made.
    fn now(&self) -> (now: u128)
        ensures
            self.clock_shows(now as nat),
            now <= max_duration_nanos(),
    {
        nanos_since(&self.origin)
    }

    /// The time now, while the lock is held.
    pub fn now_during(&self, _hold: &Hold<'_, DebouncerState<T>>) -> (now: u128)
        ensures
            self.clock_shows(now as nat),
            now <= max_duration_nanos(),
    {
        self.now()
    }

    /// Counts a sender in.
    pub(crate) fn join_tx(&self, pass: JoiningTx)
        ensures
            self.gains_tx(),
    {
        let mut hold = self.lock_state(pass.into_pass());
        let state = hold.value();
        let ghost before = *state;
        // Every sender takes up memory, so there are fewer of them than a `usize` can count.
        let _ = state.add_tx();
        let ghost after = *state;
        self.unlock_state(hold);
        assert(self.turns(before, after));
    }

    /// Counts a sender out.
    pub(crate) fn leave_tx(&self, pass: LeavingTx)
        ensures
            self.loses_tx(),
        opens_invariants none
        no_unwind
    {
        let mut hold = self.lock_state(pass.into_pass());
        let state = hold.value();
        let ghost before = *state;
        let remaining_tx: usize = state.remove_tx();
        let ghost after = *state;
        self.unlock_state(hold);
        if remaining_tx == 0 {
            // There may be some rx threads waiting on the condvars, so notify them to stop them
            // from waiting. Upon waking up, the rx threads will see that the tx count is 0 and
            // switch to their "shutdown" behaviour.
            self.monitor.wake_all();
        }
        assert(self.turns(before, after));
    }

    /// Counts a receiver in.
    pub(crate) fn join_rx(&self, pass: JoiningRx)
        ensures
            self.gains_rx(),
    {
        let mut hold = self.lock_state(pass.into_pass());
        let state = hold.value();
        let ghost before = *state;
        // Every receiver takes up memory, so there are fewer of them than a `usize` can count.
        let _ = state.add_rx();
        let ghost after = *state;
        self.unlock_state(hold);
        assert(self.turns(before, after));
    }

    /// Counts a receiver out.
    pub(crate) fn leave_rx(&self, pass: LeavingRx)
        ensures
            self.loses_rx(),
        opens_invariants none
        no_unwind
    {
        // Decrement the rx count. We don't need to notify any threads waiting on condvars if the
        // count reaches 0, because only rx threads wait on the condvars and we know there are no
        // more rx threads (because the count just reached 0!)
        let mut hold = self.lock_state(pass.into_pass());
        let state = hold.value();
        let ghost before = *state;
        let _ = state.remove_rx();
        let ghost after = *state;
        self.unlock_state(hold);
        assert(self.turns(before, after));
    }

    pub(crate) fn push<R, F>(&self, pass: Sending, raw_event: R, fold: &F) -> (pushed: Result<
        (),
        SendError<R>,
    >) where F: Fn(Option<T>, R) -> T
        requires
            forall|acc: Option<T>| call_requires(*fold, (acc, raw_event)),
        ensures
            exists|before: DebouncerState<T>, after: DebouncerState<T>, now: nat| #[trigger]
                self.pushes(before, after, raw_event, *fold, now, pushed),
    {
        let now: u128 = self.now();
        let debounce_time: u128 = nanos_of(&self.debounce_time);
        let mut hold = self.lock_state(pass.into_pass());
        let state = hold.value();
        let ghost before = *state;
        let pushed = state.push(raw_event, fold, now, debounce_time);
        let ghost after = *state;
        self.unlock_state(hold);
        let push_outcome = match pushed {
            Ok(push_outcome) => push_outcome,
            Err(error) => {
                assert(self.pushes(before, after, raw_event, *fold, now as nat, Err(error)));
                return Err(error);
            },
        };
        if matches!(push_outcome, PushOutcome::NewAcc) {
            // If we pushed a new event accumulator, wake up one rx thread which was waiting for the
            // queue to be non-empty. Don't wake up all the rx threads because only one of them can
            // consume the acc from the queue; therefore, we should wait until another acc is added
            // to the queue before waking up another thread.
            self.monitor.wake_one();
        }
        assert(self.pushes(before, after, raw_event, *fold, now as nat, Ok(())));
        Ok(())
    }

    pub(crate) fn pop(&self, pass: Receiving) -> (popped: Result<T, ReceiveError>)
        ensures
            exists|looks: Seq<Look<'_, T>>| #[trigger]
                self.looks(looks) && match popped {
                    Ok(event) => looks.last().step() == PopStep::Event(event),
                    Err(ReceiveError) => {
                        ||| looks.last().step() is Closed
                        ||| looks.last().says_wait() && looks.len() > u128::MAX
                    },
                },
    {
        let mut hold = self.lock_state(pass.into_pass());
        let mut waits_left: u128 = u128::MAX;
        let ghost mut looks: Seq<Look<'_, T>> = Seq::empty();
        // Loop because whenever we wake up from a wait, another thread may have taken what we have
        // been waiting for, or the wait may have ended for no reason.
        loop
            invariant
                self.monitor().held_by(hold),
                self.monitor().hands_out(hold.found()),
                hold.guard() == hold.found(),
                looks.len() + waits_left == u128::MAX,
                looks.len() == 0 ==> self.monitor().enters(hold.found()),
                looks.len() > 0 ==> self.monitor().enters(looks[0].hold.found()),
                self.waits_through(looks),
                looks.len() > 0 ==> self.waits_after(looks.last(), hold.found()),
            decreases waits_left,
        {
            let now: u128 = self.now_during(&hold);
            assert(self.read_during(hold.found(), now as nat));
            let state = hold.value();
            let ghost before = *state;
            let step = state.pop_step(now);
            let ghost after = *state;
            let ghost look = Look { hold, before, now: now as nat, after };
            assert(self.is_look(look));
            proof {
                looks = looks.push(look);
            }
            match step {
                PopStep::Event(event) => {
                    self.unlock_state(hold);
                    assert(self.looks(looks));
                    return Ok(event);
                },
                PopStep::Closed => {
                    self.unlock_state(hold);
                    assert(self.looks(looks));
                    return Err(ReceiveError);
                },
                // Park the thread. We will be woken up again either by a new accumulator being
                // pushed to the queue, or by the debouncer being shut down. This may return
                // spuriously, so the queue may still be empty when we wake up.
                PopStep::WaitForPush => {
                    if waits_left == 0 {
                        self.unlock_state(hold);
                        assert(self.looks(looks));
                        return Err(ReceiveError);
                    }
                    hold = self.monitor.wait_for_queue(hold);
                },
                // Wait the amount of time between now and the `ready_time` of the accumulator. This
                // is done using a condvar so the sleep can be interrupted if the debouncer is shut
                // down.
                PopStep::WaitForReady(wait_time) => {
                    if waits_left == 0 {
                        self.unlock_state(hold);
                        assert(self.looks(looks));
                        return Err(ReceiveError);
                    }
                    let timeout = duration_of(wait_time);
                    hold = self.monitor.wait_for_event(hold, timeout);
                    assert(self.monitor().waits_for_event(look.hold, timeout, hold.found()));
                },
            }
            waits_left = waits_left - 1;
        }
    }

    pub(crate) fn try_pop(&self, pass: TryReceiving) -> (popped: Result<Option<T>, ReceiveError>)
        ensures
            exists|before: DebouncerState<T>, after: DebouncerState<T>, now: nat|
                {
                    &&& #[trigger] self.turns_at(before, after, now)
                    &&& self.turns(before, after)
                    &&& self.clock_shows(now)
                    &&& popped == before@.received(now)
                    &&& after@ == before@.after_receive(now)
                },
    {
        let mut hold = self.lock_state(pass.into_pass());
        let now: u128 = self.now_during(&hold);
        let state = hold.value();
        let ghost before = *state;
        let popped = state.try_pop(now);
        let ghost after = *state;
        self.unlock_state(hold);
        assert(self.turns_at(before, after, now as nat));
        popped
    }
}

/// The result of sending, with what became of an event that was sent.
pub open spec fn with_outcome<R>(
    sent: Result<(), SendError<R>>,
    outcome: PushOutcome,
) -> Result<PushOutcome, SendError<R>> {
    match sent {
        Ok(()) => Ok(outcome),
        Err(error) => Err(error),
    }
}

} // verus!

//! How calls on the halves of debouncers make up the runs of which the [laws](crate::laws) speak.
//!
//! The contract of every call on a half says that the call takes a turn at holding the lock of its
//! debouncer, or several if it has to wait, and each turn is one [`Op`]. A [`History`] is a record of
//! the turns that were taken on one debouncer, in the order in which they were taken. A mutex hands
//! out what was last left under it; so each turn finds the state that the turn before it left, and
//! the first one finds the state with which the debouncer was made.

use crate::channel::{DebouncerRx, DebouncerTx};
use crate::debouncer::{with_outcome, Debouncer, Look};
use crate::error::{ReceiveError, SendError};
use crate::laws::{collects, events_of, received, sent, with_events, Op, Run};
use crate::laws::{law_closed_means_nothing_to_come, law_receiving_takes_one_group};
use crate::laws::{law_closed_only_without_senders, law_handles_are_counted};
use crate::laws::{lemma_candidates_front, senders_cloned, senders_dropped};
use crate::laws::law_vec_push_receives_everything;
use crate::queue::{lemma_skip_lost_front, lemma_skip_lost_ready_front};
use crate::queue::{fold_model, joins_last, push_outcome, FoldModel};
use crate::state::{one_less, DebouncerState, PopStep, StateModel};
use crate::sync::{law_waking_notifies_the_queue_condition, Hold};
use crate::time::{at_most_max, duration_nanos, duration_secs, duration_subsec_nanos};
use std::sync::{Condvar, MutexGuard};
use std::time::{Duration, Instant};
use vstd::prelude::*;

verus! {

/// One turn at holding the lock of a debouncer: the state that was found, what was done, and the
/// state that was left. If an event was sent, it was folded in as `fold` can.
#[verifier::reject_recursive_types(R)]
#[verifier::reject_recursive_types(T)]
pub struct Turn<R, T> {
    pub before: DebouncerState<T>,
    pub op: Op<R, T>,
    pub fold: FoldModel<T, R>,
    pub after: DebouncerState<T>,
}

impl<R, T> Turn<R, T> {
    /// The turn can be taken on the debouncer: in one hold of the lock the one state can be found and
    /// the other left, and the rules turn the one into the other.
    pub open spec fn taken_on(self, debouncer: Debouncer<T>) -> bool {
        &&& debouncer.monitor().ends(self.before, self.after) || debouncer.monitor().pauses(
            self.before,
            self.after,
        )
        &&& self.op.steps(
            self.before@,
            self.after@,
            self.fold,
            duration_nanos(debouncer.debounce_time()),
        )
    }
}

/// Sending through a half takes a turn.
pub proof fn law_send_takes_a_turn<R, D, F>(
    tx: DebouncerTx<R, D, F>,
    event: R,
    result: Result<(), SendError<R>>,
) where F: Fn(Option<D>, R) -> D
    requires
        call_ensures(DebouncerTx::<R, D, F>::send, (&tx, event), result),
    ensures
        exists|turn: Turn<R, D>, now: nat|
            {
                &&& #[trigger] turn.taken_on(tx.debouncer())
                &&& turn.fold == fold_model::<D, R, F>(tx.fold_function())
                &&& #[trigger] tx.debouncer().clock_shows(now)
                &&& turn.op == Op::<R, D>::Send {
                    event,
                    now,
                    result: with_outcome(result, push_outcome(turn.before@.groups, now)),
                }
            },
{
    let (before, after, now) = choose|
        before: DebouncerState<D>,
        after: DebouncerState<D>,
        now: nat,
    | #[trigger]
        tx.debouncer().pushes(before, after, event, tx.fold_function(), now, result);
    let op = Op::<R, D>::Send {
        event,
        now,
        result: with_outcome(result, push_outcome(before@.groups, now)),
    };
    let turn = Turn { before, op, fold: fold_model::<D, R, F>(tx.fold_function()), after };
    assert(turn.taken_on(tx.debouncer()) && tx.debouncer().clock_shows(now));
}

/// Trying to receive through a half takes a turn.
pub proof fn law_try_recv_takes_a_turn<R, D>(
    rx: DebouncerRx<D>,
    result: Result<Option<D>, ReceiveError>,
    fold: FoldModel<D, R>,
)
    requires
        call_ensures(DebouncerRx::<D>::try_recv, (&rx,), result),
    ensures
        exists|turn: Turn<R, D>, now: nat|
            {
                &&& #[trigger] turn.taken_on(rx.debouncer())
                &&& #[trigger] rx.debouncer().clock_shows(now)
                &&& turn.op == Op::<R, D>::TryRecv { now, result }
            },
{
    let (before, after, now) = choose|
        before: DebouncerState<D>,
        after: DebouncerState<D>,
        now: nat,
    |
        {
            &&& #[trigger] rx.debouncer().turns_at(before, after, now)
            &&& rx.debouncer().turns(before, after)
            &&& rx.debouncer().clock_shows(now)
            &&& result == before@.received(now)
            &&& after@ == before@.after_receive(now)
        };
    let turn = Turn { before, op: Op::<R, D>::TryRecv { now, result }, fold, after };
    assert(turn.taken_on(rx.debouncer()) && rx.debouncer().clock_shows(now));
}

/// The turn that a receiver took by one look.
pub open spec fn turn_of<R, T>(look: Look<'_, T>, fold: FoldModel<T, R>) -> Turn<R, T> {
    Turn {
        before: look.before,
        op: Op::RecvStep { now: look.now, step: look.step() },
        fold,
        after: look.after,
    }
}

/// Receiving through a half takes a turn for every look, all of which but the last told the receiver
/// to wait. What is received is what the last one gave.
pub proof fn law_recv_takes_turns<R, D>(
    rx: DebouncerRx<D>,
    result: Result<D, ReceiveError>,
    fold: FoldModel<D, R>,
)
    requires
        call_ensures(DebouncerRx::<D>::recv, (&rx,), result),
    ensures
        exists|looks: Seq<Look<'_, D>>|
            {
                &&& #[trigger] rx.debouncer().looks(looks)
                &&& forall|i: int|
                    0 <= i < looks.len() ==> turn_of(#[trigger] looks[i], fold).taken_on(
                        rx.debouncer(),
                    )
                &&& forall|i: int| 0 <= i < looks.len() - 1 ==> (#[trigger] looks[i]).says_wait()
                &&& match result {
                    Ok(event) => looks.last().step() == PopStep::Event(event),
                    Err(ReceiveError) => {
                        ||| looks.last().step() is Closed
                        ||| looks.last().says_wait() && looks.len() > u128::MAX
                    },
                }
            },
{
    let looks = choose|looks: Seq<Look<'_, D>>| #[trigger]
        rx.debouncer().looks(looks) && match result {
            Ok(event) => looks.last().step() == PopStep::Event(event),
            Err(ReceiveError) => {
                ||| looks.last().step() is Closed
                ||| looks.last().says_wait() && looks.len() > u128::MAX
            },
        };
    assert forall|i: int| 0 <= i < looks.len() implies turn_of(
        #[trigger] looks[i],
        fold,
    ).taken_on(rx.debouncer()) by {
        if i < looks.len() - 1 {
            assert(rx.debouncer().waits_after(looks[i + 1 - 1], looks[i + 1].hold.found()));
        }
    }
    assert forall|i: int| 0 <= i < looks.len() - 1 implies (#[trigger] looks[i]).says_wait() by {
        assert(rx.debouncer().waits_after(looks[i + 1 - 1], looks[i + 1].hold.found()));
    }
}

/// Cloning a sender takes a turn, which counts it; unless there are as many as can be counted, when
/// nothing changes.
pub proof fn law_cloning_a_sender_takes_a_turn<R, D, F>(
    tx: DebouncerTx<R, D, F>,
    copy: DebouncerTx<R, D, F>,
) where F: Fn(Option<D>, R) -> D + Clone
    requires
        call_ensures(DebouncerTx::<R, D, F>::clone, (&tx,), copy),
    ensures
        copy.debouncer() == tx.debouncer(),
        exists|turn: Turn<R, D>|
            {
                &&& #[trigger] tx.debouncer().turns(turn.before, turn.after)
                &&& turn.op is AddTx
                &&& turn.before@.txs < usize::MAX ==> turn.taken_on(tx.debouncer())
                &&& turn.before@.txs == usize::MAX ==> turn.after@ == turn.before@
            },
{
    let (before, after) = choose|before: DebouncerState<D>, after: DebouncerState<D>| #[trigger]
        tx.debouncer().turns(before, after) && after@ == if before@.txs < usize::MAX {
            before@.with_txs(before@.txs + 1)
        } else {
            before@
        };
    let turn = Turn { before, op: Op::<R, D>::AddTx, fold: fold_model::<D, R, F>(tx.fold_function()), after };
    assert(tx.debouncer().turns(turn.before, turn.after));
}

/// Cloning a receiver takes a turn, which counts it; unless there are as many as can be counted, when
/// nothing changes.
pub proof fn law_cloning_a_receiver_takes_a_turn<R, D>(
    rx: DebouncerRx<D>,
    copy: DebouncerRx<D>,
    fold: FoldModel<D, R>,
)
    requires
        call_ensures(DebouncerRx::<D>::clone, (&rx,), copy),
    ensures
        copy.debouncer() == rx.debouncer(),
        exists|turn: Turn<R, D>|
            {
                &&& #[trigger] rx.debouncer().turns(turn.before, turn.after)
                &&& turn.op is AddRx
                &&& turn.before@.rxs < usize::MAX ==> turn.taken_on(rx.debouncer())
                &&& turn.before@.rxs == usize::MAX ==> turn.after@ == turn.before@
            },
{
    let (before, after) = choose|before: DebouncerState<D>, after: DebouncerState<D>| #[trigger]
        rx.debouncer().turns(before, after) && after@ == if before@.rxs < usize::MAX {
            before@.with_rxs(before@.rxs + 1)
        } else {
            before@
        };
    let turn = Turn { before, op: Op::<R, D>::AddRx, fold, after };
    assert(rx.debouncer().turns(turn.before, turn.after));
}

/// Dropping a sender takes a turn. If it leaves no sender behind, all receivers which wait are woken
/// up.
pub proof fn law_dropping_a_sender_takes_a_turn<R, D>(
    debouncer: Debouncer<D>,
    fold: FoldModel<D, R>,
)
    requires
        debouncer.loses_tx(),
    ensures
        exists|turn: Turn<R, D>|
            {
                &&& #[trigger] turn.taken_on(debouncer)
                &&& turn.op is RemoveTx
                &&& turn.after@.txs == 0 ==> debouncer.monitor().wakes_all()
            },
{
    let (before, after) = choose|before: DebouncerState<D>, after: DebouncerState<D>|
        {
            &&& #[trigger] debouncer.turns(before, after)
            &&& after@ == before@.with_txs(one_less(before@.txs))
            &&& after@.txs == 0 ==> debouncer.monitor().wakes_all()
        };
    let turn = Turn { before, op: Op::<R, D>::RemoveTx, fold, after };
    assert(turn.taken_on(debouncer));
}

/// Dropping a receiver takes a turn.
pub proof fn law_dropping_a_receiver_takes_a_turn<R, D>(
    debouncer: Debouncer<D>,
    fold: FoldModel<D, R>,
)
    requires
        debouncer.loses_rx(),
    ensures
        exists|turn: Turn<R, D>| #[trigger] turn.taken_on(debouncer) && turn.op is RemoveRx,
{
    let (before, after) = choose|before: DebouncerState<D>, after: DebouncerState<D>| #[trigger]
        debouncer.turns(before, after) && after@ == before@.with_rxs(one_less(before@.rxs));
    let turn = Turn { before, op: Op::<R, D>::RemoveRx, fold, after };
    assert(turn.taken_on(debouncer));
}

/// What the clock of a debouncer shows is the whole time, in nanoseconds, that the standard library
/// says has passed since one fixed instant.
pub proof fn law_clock_shows_the_time_passed<D>(debouncer: Debouncer<D>, now: nat)
    requires
        debouncer.clock_shows(now),
    ensures
        exists|passed: Duration|
            {
                &&& #[trigger] call_ensures(Instant::elapsed, (&debouncer.origin(),), passed)
                &&& now == duration_secs(passed) * 1_000_000_000 + duration_subsec_nanos(passed)
            },
{
    let passed = choose|passed: Duration|
        call_ensures(Instant::elapsed, (&debouncer.origin(),), passed) && now
            == #[trigger] duration_nanos(passed);
}

/// Sending goes by the time that has passed since the origin of the debouncer, and makes a group that
/// is ready the whole debounce time later.
pub proof fn law_send_goes_by_the_time_passed<R, D, F>(
    tx: DebouncerTx<R, D, F>,
    event: R,
    result: Result<(), SendError<R>>,
) where F: Fn(Option<D>, R) -> D
    requires
        call_ensures(DebouncerTx::<R, D, F>::send, (&tx, event), result),
    ensures
        exists|before: DebouncerState<D>, after: DebouncerState<D>, passed: Duration|
            {
                let now = duration_secs(passed) * 1_000_000_000 + duration_subsec_nanos(passed);
                let debounce_time = tx.debouncer().debounce_time();
                &&& #[trigger] tx.debouncer().turns(before, after)
                &&& #[trigger] call_ensures(
                    Instant::elapsed,
                    (&tx.debouncer().origin(),),
                    passed,
                )
                &&& before@.rxs == 0 <==> result is Err
                &&& result matches Err(error) ==> error.0 == event && after@ == before@
                &&& result is Ok ==> {
                    &&& after@.groups.len() > 0
                    &&& after@.groups.last().ready_time == if before@.groups.len() > 0
                        && before@.groups.last().ready_time > now {
                        before@.groups.last().ready_time as int
                    } else {
                        now + duration_secs(debounce_time) * 1_000_000_000 + duration_subsec_nanos(
                            debounce_time,
                        )
                    }
                }
            },
{
    let (before, after, now) = choose|
        before: DebouncerState<D>,
        after: DebouncerState<D>,
        now: nat,
    | #[trigger]
        tx.debouncer().pushes(before, after, event, tx.fold_function(), now, result);
    law_clock_shows_the_time_passed(tx.debouncer(), now);
    let passed = choose|passed: Duration|
        {
            &&& #[trigger] call_ensures(Instant::elapsed, (&tx.debouncer().origin(),), passed)
            &&& now == duration_secs(passed) * 1_000_000_000 + duration_subsec_nanos(passed)
        };
    assert(tx.debouncer().turns(before, after) && call_ensures(
        Instant::elapsed,
        (&tx.debouncer().origin(),),
        passed,
    ));
}

/// An event that is sent and does not join the group before it wakes up a receiver who waits for the
/// queue to be filled.
pub proof fn law_new_groups_wake_a_receiver<R, D, F>(
    tx: DebouncerTx<R, D, F>,
    event: R,
    result: Result<(), SendError<R>>,
) where F: Fn(Option<D>, R) -> D
    requires
        call_ensures(DebouncerTx::<R, D, F>::send, (&tx, event), result),
    ensures
        exists|before: DebouncerState<D>, after: DebouncerState<D>|
            {
                &&& #[trigger] tx.debouncer().turns(before, after)
                &&& result is Err ==> after@ == before@
                &&& after@.groups.len() != before@.groups.len() ==> {
                    &&& after@.groups.len() == before@.groups.len() + 1
                    &&& call_ensures(
                        Condvar::notify_one,
                        (&tx.debouncer().monitor().queue_condition(),),
                        (),
                    )
                }
            },
{
    let (before, after, now) = choose|
        before: DebouncerState<D>,
        after: DebouncerState<D>,
        now: nat,
    | #[trigger]
        tx.debouncer().pushes(before, after, event, tx.fold_function(), now, result);
    if tx.debouncer().monitor().wakes_one() {
        law_waking_notifies_the_queue_condition(tx.debouncer().monitor());
    }
    if joins_last(before@.groups, now) && result is Ok {
        assert(after@.groups.drop_last().len() == before@.groups.drop_last().len());
    }
}

/// The time of a look, or of trying to receive, is read from the clock while the lock is held for it,
/// and is the whole time that has passed since the origin of the debouncer.
pub proof fn law_receivers_read_the_clock_under_the_lock<D>(
    debouncer: Debouncer<D>,
    found: MutexGuard<'_, DebouncerState<D>>,
    now: nat,
)
    requires
        debouncer.read_during(found, now),
    ensures
        exists|hold: Hold<'_, DebouncerState<D>>, reading: u128|
            {
                &&& #[trigger] call_ensures(
                    Debouncer::<D>::now_during,
                    (&debouncer, &hold),
                    reading,
                )
                &&& hold.found() == found
                &&& reading == now
            },
        exists|passed: Duration|
            {
                &&& #[trigger] call_ensures(Instant::elapsed, (&debouncer.origin(),), passed)
                &&& now == duration_secs(passed) * 1_000_000_000 + duration_subsec_nanos(passed)
            },
{
    law_clock_shows_the_time_passed(debouncer, now);
}

/// Every look of a receiver is at a time that was read from the clock while the lock was held for that
/// look, after any wait before it. So where a look says to wait for a group, the wait is what is left
/// until the group is ready, and where it finds a group ready, the group is given out.
pub proof fn law_recv_looks_at_the_time_of_the_look<D>(
    rx: DebouncerRx<D>,
    result: Result<D, ReceiveError>,
)
    requires
        call_ensures(DebouncerRx::<D>::recv, (&rx,), result),
    ensures
        exists|looks: Seq<Look<'_, D>>|
            {
                &&& #[trigger] rx.debouncer().looks(looks)
                &&& forall|i: int|
                    0 <= i < looks.len() ==> exists|
                        hold: Hold<'_, DebouncerState<D>>,
                        reading: u128,
                    |
                        {
                            &&& #[trigger] call_ensures(
                                Debouncer::<D>::now_during,
                                (&rx.debouncer(), &hold),
                                reading,
                            )
                            &&& hold.found() == (#[trigger] looks[i]).hold.found()
                            &&& reading == looks[i].now
                        }
                &&& forall|i: int|
                    0 <= i < looks.len() ==> match (#[trigger] looks[i]).step() {
                        PopStep::WaitForReady(wait_time) => {
                            &&& looks[i].after@.groups.len() > 0
                            &&& looks[i].now + wait_time == looks[i].after@.groups[0].ready_time
                        },
                        PopStep::WaitForPush => looks[i].after@.groups.len() == 0,
                        _ => i == looks.len() - 1,
                    }
                &&& result matches Ok(event) ==> looks.last().step() == PopStep::Event(event)
            },
{
    let looks = choose|looks: Seq<Look<'_, D>>| #[trigger]
        rx.debouncer().looks(looks) && match result {
            Ok(event) => looks.last().step() == PopStep::Event(event),
            Err(ReceiveError) => {
                ||| looks.last().step() is Closed
                ||| looks.last().says_wait() && looks.len() > u128::MAX
            },
        };
    assert forall|i: int| 0 <= i < looks.len() implies exists|
        hold: Hold<'_, DebouncerState<D>>,
        reading: u128,
    |
        {
            &&& #[trigger] call_ensures(
                Debouncer::<D>::now_during,
                (&rx.debouncer(), &hold),
                reading,
            )
            &&& hold.found() == (#[trigger] looks[i]).hold.found()
            &&& reading == looks[i].now
        } by {
    }
    assert forall|i: int| 0 <= i < looks.len() implies match (#[trigger] looks[i]).step() {
        PopStep::WaitForReady(wait_time) => {
            &&& looks[i].after@.groups.len() > 0
            &&& looks[i].now + wait_time == looks[i].after@.groups[0].ready_time
        },
        PopStep::WaitForPush => looks[i].after@.groups.len() == 0,
        _ => i == looks.len() - 1,
    } by {
        lemma_skip_lost_ready_front(looks[i].before@.groups, looks[i].now);
        lemma_skip_lost_front(looks[i].before@.groups);
        if i < looks.len() - 1 {
            assert(rx.debouncer().waits_after(looks[i + 1 - 1], looks[i + 1].hold.found()));
        }
    }
}

/// After a look which finds the oldest group not ready yet, the receiver waits for no longer than what
/// is left until the group is ready, and asks for no less.
pub proof fn law_receivers_wait_until_the_group_is_ready<D>(
    debouncer: Debouncer<D>,
    look: Look<'_, D>,
    found: MutexGuard<'_, DebouncerState<D>>,
)
    requires
        debouncer.is_look(look),
        debouncer.waits_after(look, found),
        look.after@.groups.len() > 0,
    ensures
        look.now < look.after@.groups[0].ready_time,
        exists|timeout: Duration|
            {
                let wait_time = look.after@.groups[0].ready_time - look.now;
                &&& #[trigger] debouncer.monitor().waits_for_event(look.hold, timeout, found)
                &&& wait_time < 0x1_0000_0000_0000_0000 * 1_000_000_000 ==> duration_secs(timeout)
                    * 1_000_000_000 + duration_subsec_nanos(timeout) == wait_time
            },
{
    lemma_skip_lost_front(look.before@.groups);
    lemma_skip_lost_ready_front(look.before@.groups, look.now);
    let wait_time = look.step()->WaitForReady_0;
    let timeout = choose|timeout: Duration| #[trigger]
        debouncer.monitor().waits_for_event(look.hold, timeout, found) && duration_nanos(timeout)
            == at_most_max(wait_time as nat);
    assert(debouncer.monitor().waits_for_event(look.hold, timeout, found));
}

/// Receiving takes no group that has events but the one whose events it returns: in its last look that
/// is the oldest such group, and in the looks before nothing but lost groups is taken. It leaves the
/// numbers of senders and receivers as they are.
pub proof fn law_recv_takes_what_it_returns<D>(rx: DebouncerRx<D>, result: Result<D, ReceiveError>)
    requires
        call_ensures(DebouncerRx::<D>::recv, (&rx,), result),
    ensures
        exists|looks: Seq<Look<'_, D>>|
            {
                &&& #[trigger] rx.debouncer().looks(looks)
                &&& forall|i: int|
                    0 <= i < looks.len() ==> {
                        let before = with_events((#[trigger] looks[i]).before@.groups);
                        let after = with_events(looks[i].after@.groups);
                        &&& looks[i].after@.txs == looks[i].before@.txs
                        &&& looks[i].after@.rxs == looks[i].before@.rxs
                        &&& if i == looks.len() - 1 && result is Ok {
                            before.len() > 0 && before[0].acc == Some(result->Ok_0) && after
                                == before.drop_first()
                        } else {
                            after == before
                        }
                    }
            },
{
    let looks = choose|looks: Seq<Look<'_, D>>| #[trigger]
        rx.debouncer().looks(looks) && match result {
            Ok(event) => looks.last().step() == PopStep::Event(event),
            Err(ReceiveError) => {
                ||| looks.last().step() is Closed
                ||| looks.last().says_wait() && looks.len() > u128::MAX
            },
        };
    assert forall|i: int| 0 <= i < looks.len() implies {
        let before = with_events((#[trigger] looks[i]).before@.groups);
        let after = with_events(looks[i].after@.groups);
        &&& looks[i].after@.txs == looks[i].before@.txs
        &&& looks[i].after@.rxs == looks[i].before@.rxs
        &&& if i == looks.len() - 1 && result is Ok {
            before.len() > 0 && before[0].acc == Some(result->Ok_0) && after
                == before.drop_first()
        } else {
            after == before
        }
    } by {
        law_receiving_takes_one_group(looks[i].before@, looks[i].now);
        if i < looks.len() - 1 {
            assert(rx.debouncer().waits_after(looks[i + 1 - 1], looks[i + 1].hold.found()));
        }
    }
}

/// Trying to receive takes no group that has events but the one whose events it returns, which is the
/// oldest such group, and leaves the numbers of senders and receivers as they are. It returns that
/// group if it is ready at the time read under the lock, or if there is no sender.
pub proof fn law_try_recv_takes_what_it_returns<D>(
    rx: DebouncerRx<D>,
    result: Result<Option<D>, ReceiveError>,
)
    requires
        call_ensures(DebouncerRx::<D>::try_recv, (&rx,), result),
    ensures
        exists|before: DebouncerState<D>, after: DebouncerState<D>, now: nat|
            {
                let old_groups = with_events(before@.groups);
                let new_groups = with_events(after@.groups);
                &&& #[trigger] rx.debouncer().turns_at(before, after, now)
                &&& after@.txs == before@.txs
                &&& after@.rxs == before@.rxs
                &&& match result {
                    Ok(Some(event)) => {
                        &&& old_groups.len() > 0
                        &&& old_groups[0].acc == Some(event)
                        &&& before@.txs == 0 || old_groups[0].ready_time <= now
                        &&& new_groups == old_groups.drop_first()
                    },
                    Ok(None) => {
                        &&& before@.txs > 0
                        &&& new_groups == old_groups
                        &&& after@.groups.len() > 0 ==> after@.groups[0].ready_time > now
                    },
                    Err(ReceiveError) => before@.txs == 0 && old_groups.len() == 0,
                }
            },
{
    let (before, after, now) = choose|
        before: DebouncerState<D>,
        after: DebouncerState<D>,
        now: nat,
    |
        {
            &&& #[trigger] rx.debouncer().turns_at(before, after, now)
            &&& rx.debouncer().turns(before, after)
            &&& rx.debouncer().clock_shows(now)
            &&& result == before@.received(now)
            &&& after@ == before@.after_receive(now)
        };
    law_receiving_takes_one_group(before@, now);
    law_closed_means_nothing_to_come(before@, now);
    lemma_skip_lost_ready_front(before@.groups, now);
    lemma_skip_lost_front(before@.groups);
    lemma_candidates_front(before@, now);
}

/// Cloning and dropping the one half leaves the groups and the number of the other halves as they are.
pub proof fn law_counting_touches_one_number<D>(debouncer: Debouncer<D>)
    ensures
        debouncer.gains_tx() ==> exists|before: DebouncerState<D>, after: DebouncerState<D>|
            {
                &&& #[trigger] debouncer.turns(before, after)
                &&& after@.groups == before@.groups
                &&& after@.rxs == before@.rxs
                &&& after@.txs == before@.txs + 1 || after@.txs == before@.txs >= usize::MAX
            },
        debouncer.loses_tx() ==> exists|before: DebouncerState<D>, after: DebouncerState<D>|
            {
                &&& #[trigger] debouncer.turns(before, after)
                &&& after@.groups == before@.groups
                &&& after@.rxs == before@.rxs
                &&& after@.txs + 1 == before@.txs || after@.txs == before@.txs == 0
            },
        debouncer.gains_rx() ==> exists|before: DebouncerState<D>, after: DebouncerState<D>|
            {
                &&& #[trigger] debouncer.turns(before, after)
                &&& after@.groups == before@.groups
                &&& after@.txs == before@.txs
                &&& after@.rxs == before@.rxs + 1 || after@.rxs == before@.rxs >= usize::MAX
            },
        debouncer.loses_rx() ==> exists|before: DebouncerState<D>, after: DebouncerState<D>|
            {
                &&& #[trigger] debouncer.turns(before, after)
                &&& after@.groups == before@.groups
                &&& after@.txs == before@.txs
                &&& after@.rxs + 1 == before@.rxs || after@.rxs == before@.rxs == 0
            },
{
}

/// The turns that were taken on one debouncer, in order, and the state with which it was made.
#[verifier::reject_recursive_types(R)]
#[verifier::reject_recursive_types(T)]
pub struct History<R, T> {
    pub initial: DebouncerState<T>,
    pub turns: Seq<Turn<R, T>>,
}

impl<R, T> History<R, T> {
    /// The state that was under the lock after the first `i` turns.
    pub open spec fn state(self, i: int) -> DebouncerState<T> {
        if i == 0 {
            self.initial
        } else {
            self.turns[i - 1].after
        }
    }

    /// The debouncer was made with the initial state, with one sender, one receiver and nothing to
    /// receive; the turns were taken on it; and each of them found what the one before it left.
    pub open spec fn of(self, debouncer: Debouncer<T>) -> bool {
        &&& debouncer.starts_as(self.initial)
        &&& self.initial@ == StateModel::<T>::initial(1, 1)
        &&& forall|i: int|
            0 <= i < self.turns.len() ==> {
                &&& (#[trigger] self.turns[i]).taken_on(debouncer)
                &&& self.turns[i].before == self.state(i)
            }
    }

    /// What was done, turn after turn.
    pub open spec fn ops(self) -> Seq<Op<R, T>> {
        Seq::new(self.turns.len(), |i: int| self.turns[i].op)
    }

    /// The record of what was done with the states that it was done to.
    pub open spec fn run(self) -> Run<R, T> {
        Run { states: Seq::new(self.turns.len() + 1, |i: int| self.state(i)@), ops: self.ops() }
    }

    /// What the fold functions by which events were sent can make of their arguments, taken
    /// together. Clones of a sender have clones of its fold function, so there may be several.
    pub open spec fn folds(self) -> FoldModel<T, R> {
        FoldModel {
            gives: |so_far: Option<T>, event: R, joined: T|
                exists|i: int|
                    0 <= i < self.turns.len() && (#[trigger] self.turns[i]).op is Send
                        && self.turns[i].fold.can_give(so_far, event, joined),
        }
    }
}

/// The turns that were taken on a debouncer are a run, so every law on runs holds of them.
pub proof fn law_history_is_a_run<R, T>(history: History<R, T>, debouncer: Debouncer<T>)
    requires
        history.of(debouncer),
    ensures
        history.run().valid(history.folds(), duration_nanos(debouncer.debounce_time())),
{
    let run = history.run();
    let debounce_time = duration_nanos(debouncer.debounce_time());
    assert forall|i: int| 0 <= i < run.ops.len() implies (#[trigger] run.ops[i]).steps(
        run.states[i],
        run.states[i + 1],
        history.folds(),
        debounce_time,
    ) by {
        let turn = history.turns[i];
        assert(turn.op.steps(turn.before@, turn.after@, turn.fold, debounce_time));
    }
}

/// Where all events are sent by the same fold function, the run is one of that fold function.
pub proof fn law_history_of_one_fold_is_a_run<R, T>(
    history: History<R, T>,
    debouncer: Debouncer<T>,
    fold: FoldModel<T, R>,
)
    requires
        history.of(debouncer),
        forall|i: int|
            0 <= i < history.turns.len() && (#[trigger] history.turns[i]).op is Send
                ==> history.turns[i].fold == fold,
    ensures
        history.run().valid(fold, duration_nanos(debouncer.debounce_time())),
{
    let run = history.run();
    let debounce_time = duration_nanos(debouncer.debounce_time());
    law_history_is_a_run(history, debouncer);
    assert forall|i: int| 0 <= i < run.ops.len() implies (#[trigger] run.ops[i]).steps(
        run.states[i],
        run.states[i + 1],
        fold,
        debounce_time,
    ) by {}
}

/// What is sent through any clones of one half and received through any clones of the other is
/// neither lost nor duplicated nor put out of order. Where every sender's fold function pushes raw
/// events to vectors, whenever a receiver is told that the debouncer is closed, the vectors that were
/// received hold, one after the other, exactly the raw events that were sent, and none of them is
/// empty.
pub proof fn law_halves_lose_nothing<R>(debouncer: Debouncer<Vec<R>>, history: History<R, Vec<R>>)
    requires
        history.of(debouncer),
        forall|i: int|
            0 <= i < history.turns.len() && (#[trigger] history.turns[i]).op is Send ==> collects(
                history.turns[i].fold,
            ),
        history.turns.len() > 0,
        history.turns.last().op.says_closed(),
    ensures
        received(history.ops()).map_values(|event: Vec<R>| event@).flatten() == events_of(
            sent(history.ops()),
        ),
        forall|i: int|
            0 <= i < received(history.ops()).len() ==> (#[trigger] received(
                history.ops(),
            )[i])@.len() > 0,
{
    law_history_is_a_run(history, debouncer);
    law_vec_push_receives_everything(
        history.run(),
        history.folds(),
        duration_nanos(debouncer.debounce_time()),
    );
}

/// The senders that are counted under the lock are the first one and its clones, without those that
/// were dropped; and no receiver is told that the debouncer is closed before all of them have been
/// dropped.
pub proof fn law_closed_only_after_all_senders<R, T>(
    history: History<R, T>,
    debouncer: Debouncer<T>,
)
    requires
        history.of(debouncer),
        history.run().handles_alive(),
    ensures
        history.state(history.turns.len() as int)@.txs + senders_dropped(history.ops()) == 1
            + senders_cloned(history.ops()),
        history.turns.len() > 0 && history.turns.last().op.says_closed() ==> senders_dropped(
            history.ops(),
        ) == 1 + senders_cloned(history.ops()),
{
    let debounce_time = duration_nanos(debouncer.debounce_time());
    law_history_is_a_run(history, debouncer);
    law_handles_are_counted(history.run(), history.folds(), debounce_time);
    if history.turns.len() > 0 && history.turns.last().op.says_closed() {
        law_closed_only_without_senders(history.run(), history.folds(), debounce_time);
    }
}

/// A turn with the debouncer on which it was taken.
#[verifier::reject_recursive_types(R)]
#[verifier::reject_recursive_types(T)]
pub struct PlacedTurn<R, T> {
    pub debouncer: Debouncer<T>,
    pub turn: Turn<R, T>,
}

/// The turns that were taken on one of several debouncers.
pub open spec fn turns_on<R, T>(turns: Seq<PlacedTurn<R, T>>, debouncer: Debouncer<T>) -> Seq<
    Turn<R, T>,
>
    decreases turns.len(),
{
    if turns.len() == 0 {
        seq![]
    } else if turns.last().debouncer == debouncer {
        turns_on(turns.drop_last(), debouncer).push(turns.last().turn)
    } else {
        turns_on(turns.drop_last(), debouncer)
    }
}

/// What happened on one of several debouncers, given the states with which they were made.
pub open spec fn history_of<R, T>(
    initial: spec_fn(Debouncer<T>) -> DebouncerState<T>,
    turns: Seq<PlacedTurn<R, T>>,
    debouncer: Debouncer<T>,
) -> History<R, T> {
    History { initial: initial(debouncer), turns: turns_on(turns, debouncer) }
}

/// The turns were taken on debouncers that were made with the given states, and each turn found under
/// the lock of its debouncer what was last left under that lock.
pub open spec fn taken_in_order<R, T>(
    initial: spec_fn(Debouncer<T>) -> DebouncerState<T>,
    turns: Seq<PlacedTurn<R, T>>,
) -> bool {
    forall|i: int|
        0 <= i < turns.len() ==> {
            let debouncer = (#[trigger] turns[i]).debouncer;
            let earlier = history_of(initial, turns.take(i), debouncer);
            &&& turns[i].turn.taken_on(debouncer)
            &&& turns[i].turn.before == earlier.state(earlier.turns.len() as int)
        }
}

/// Debouncers do not affect each other. However the turns on several of them are interleaved, those
/// on any one are a history of that one alone: nothing that is found, received or refused there is
/// any different for what is done to the others.
pub proof fn law_debouncers_are_independent<R, T>(
    initial: spec_fn(Debouncer<T>) -> DebouncerState<T>,
    turns: Seq<PlacedTurn<R, T>>,
    debouncer: Debouncer<T>,
)
    requires
        taken_in_order(initial, turns),
        debouncer.starts_as(initial(debouncer)),
        initial(debouncer)@ == StateModel::<T>::initial(1, 1),
    ensures
        history_of(initial, turns, debouncer).of(debouncer),
    decreases turns.len(),
{
    if turns.len() > 0 {
        let rest = turns.drop_last();
        assert forall|i: int| 0 <= i < rest.len() implies {
            let debouncer = (#[trigger] rest[i]).debouncer;
            let earlier = history_of(initial, rest.take(i), debouncer);
            &&& rest[i].turn.taken_on(debouncer)
            &&& rest[i].turn.before == earlier.state(earlier.turns.len() as int)
        } by {
            assert(rest.take(i) == turns.take(i));
        }
        law_debouncers_are_independent(initial, rest, debouncer);
        let earlier = history_of(initial, rest, debouncer);
        let history = history_of(initial, turns, debouncer);
        assert forall|i: int| 0 <= i < history.turns.len() implies {
            &&& (#[trigger] history.turns[i]).taken_on(debouncer)
            &&& history.turns[i].before == history.state(i)
        } by {
            if i < earlier.turns.len() {
                assert(history.turns[i] == earlier.turns[i]);
            }
        }
    }
}

} // verus!

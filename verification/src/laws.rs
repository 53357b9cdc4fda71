//! What holds of a debouncer over any number of calls.
//!
//! A [`Run`] is a record of the calls that were made on the state of one debouncer, whoever made
//! them, in the order in which they took hold of its lock. The laws here are proved of every run,
//! from what the functions of [`DebouncerState`](crate::state::DebouncerState) state of single
//! calls.

use crate::error::{ReceiveError, SendError};
use crate::fold::fold_vec_push;
use crate::queue::{lemma_skip_lost_front, lemma_skip_lost_ready_front};
use crate::queue::{fold_model, joins_last, pushes, skip_lost, skip_lost_ready, spaced};
use crate::queue::{EventAcc, FoldModel, PushOutcome};
use crate::state::{one_less, PopStep, StateModel};
use vstd::prelude::*;

verus! {

/// One call on the state of a debouncer, with what it returned.
#[allow(inconsistent_fields)]
pub enum Op<R, T> {
    /// A raw event was sent.
    Send { event: R, now: nat, result: Result<PushOutcome, SendError<R>> },
    /// A receiver tried to receive.
    TryRecv { now: nat, result: Result<Option<T>, ReceiveError> },
    /// A receiver which was prepared to wait looked what to do.
    RecvStep { now: nat, step: PopStep<T> },
    /// A sender was cloned.
    AddTx,
    /// A sender was dropped.
    RemoveTx,
    /// A receiver was cloned.
    AddRx,
    /// A receiver was dropped.
    RemoveRx,
}

/// The calls that were made on the state of a debouncer. The state `states[i]` was found by the
/// call `ops[i]`, which left `states[i + 1]` behind.
pub struct Run<R, T> {
    pub states: Seq<StateModel<T>>,
    pub ops: Seq<Op<R, T>>,
}

/// A raw event with the time at which it was sent.
pub struct SentEvent<R> {
    pub event: R,
    pub now: nat,
}

impl<R, T> Op<R, T> {
    /// The call finds the state `pre`, returns what it is recorded to have returned, and leaves the
    /// state `post` behind.
    pub open spec fn steps(
        self,
        pre: StateModel<T>,
        post: StateModel<T>,
        f: FoldModel<T, R>,
        debounce_time: nat,
    ) -> bool {
        match self {
            Op::Send { event, now, result } => pre.sends(
                post,
                event,
                f,
                now,
                debounce_time,
                result,
            ),
            Op::TryRecv { now, result } => {
                &&& result == pre.received(now)
                &&& post == pre.after_receive(now)
            },
            Op::RecvStep { now, step } => {
                &&& step == pre.step(now)
                &&& post == pre.after_receive(now)
            },
            Op::AddTx => post == pre.with_txs(pre.txs + 1),
            Op::RemoveTx => post == pre.with_txs(one_less(pre.txs)),
            Op::AddRx => post == pre.with_rxs(pre.rxs + 1),
            Op::RemoveRx => post == pre.with_rxs(one_less(pre.rxs)),
        }
    }

    /// The event that a receiver got by this call, if it got one.
    pub open spec fn received(self) -> Option<T> {
        match self {
            Op::TryRecv { result: Ok(Some(event)), .. } => Some(event),
            Op::RecvStep { step: PopStep::Event(event), .. } => Some(event),
            _ => None,
        }
    }

    /// The time that the call was told, if it was told one.
    pub open spec fn time(self) -> Option<nat> {
        match self {
            Op::Send { now, .. } => Some(now),
            Op::TryRecv { now, .. } => Some(now),
            Op::RecvStep { now, .. } => Some(now),
            _ => None,
        }
    }
}

/// The raw events that were sent and not handed back, in order.
pub open spec fn sent<R, T>(ops: Seq<Op<R, T>>) -> Seq<SentEvent<R>>
    decreases ops.len(),
{
    if ops.len() == 0 {
        seq![]
    } else {
        match ops.last() {
            Op::Send { event, now, result: Ok(_) } => sent(ops.drop_last()).push(
                SentEvent { event, now },
            ),
            _ => sent(ops.drop_last()),
        }
    }
}

/// The debounced events that were received, in order.
pub open spec fn received<R, T>(ops: Seq<Op<R, T>>) -> Seq<T>
    decreases ops.len(),
{
    if ops.len() == 0 {
        seq![]
    } else {
        match ops.last().received() {
            Some(event) => received(ops.drop_last()).push(event),
            None => received(ops.drop_last()),
        }
    }
}

/// The raw events of the groups that have not been received, oldest group first. An event which
/// made a new accumulator starts a group, any other event belongs to the group before it, and
/// receiving takes the oldest group away.
pub open spec fn pending<R, T>(ops: Seq<Op<R, T>>) -> Seq<Seq<SentEvent<R>>>
    decreases ops.len(),
{
    if ops.len() == 0 {
        seq![]
    } else {
        let before = pending(ops.drop_last());
        match ops.last() {
            Op::Send { event, now, result: Ok(PushOutcome::NewAcc) } => before.push(
                seq![SentEvent { event, now }],
            ),
            Op::Send { event, now, result: Ok(PushOutcome::NoNewAcc) } => before.drop_last().push(
                before.last().push(SentEvent { event, now }),
            ),
            _ => if ops.last().received() is Some {
                before.drop_first()
            } else {
                before
            },
        }
    }
}

/// The raw events of the groups that were received, oldest group first.
pub open spec fn delivered<R, T>(ops: Seq<Op<R, T>>) -> Seq<Seq<SentEvent<R>>>
    decreases ops.len(),
{
    if ops.len() == 0 {
        seq![]
    } else if ops.last().received() is Some {
        delivered(ops.drop_last()).push(pending(ops.drop_last())[0])
    } else {
        delivered(ops.drop_last())
    }
}

/// Folding `event` into `before` can give `after`.
pub open spec fn folds_in<T, R>(
    f: FoldModel<T, R>,
    before: Option<T>,
    event: R,
    after: Option<T>,
) -> bool {
    after is Some && f.can_give(before, event, after->0)
}

/// Folding the given raw events one after the other, starting from nothing, can pass through the
/// given accumulators.
pub open spec fn folds_through<T, R>(
    f: FoldModel<T, R>,
    events: Seq<SentEvent<R>>,
    accs: Seq<Option<T>>,
) -> bool {
    &&& accs.len() == events.len() + 1
    &&& accs[0] is None
    &&& forall|k: int|
        0 <= k < events.len() ==> folds_in(
            f,
            accs[k],
            (#[trigger] events[k]).event,
            accs[k + 1],
        )
}

/// Folding the given raw events one after the other, starting from nothing, can give `acc`.
pub open spec fn folds_to<T, R>(
    f: FoldModel<T, R>,
    events: Seq<SentEvent<R>>,
    acc: Option<T>,
) -> bool {
    exists|accs: Seq<Option<T>>| #[trigger] folds_through(f, events, accs) && accs.last() == acc
}

/// The events are one window: there is at least one, and every further one was sent before
/// `debounce_time` had passed since the first.
pub open spec fn is_window<R>(events: Seq<SentEvent<R>>, debounce_time: nat) -> bool {
    &&& events.len() > 0
    &&& forall|k: int| 0 < k < events.len() ==> #[trigger] events[k].now < events[0].now + debounce_time
}

impl<R, T> Run<R, T> {
    /// The record starts with an empty queue, and every call did what it does.
    pub open spec fn valid(self, f: FoldModel<T, R>, debounce_time: nat) -> bool {
        &&& self.states.len() == self.ops.len() + 1
        &&& self.states[0].groups.len() == 0
        &&& forall|i: int|
            0 <= i < self.ops.len() ==> (#[trigger] self.ops[i]).steps(
                self.states[i],
                self.states[i + 1],
                f,
                debounce_time,
            )
    }

    /// The times that the calls were told never go back.
    pub open spec fn times_ordered(self) -> bool {
        forall|i: int, j: int|
            0 <= i < j < self.ops.len() && (#[trigger] self.ops[i]).time() is Some && (
            #[trigger] self.ops[j]).time() is Some ==> self.ops[i].time()->0
                <= self.ops[j].time()->0
    }

    /// Only senders that are there send and are cloned or dropped, and only receivers that are there
    /// receive and are cloned or dropped.
    pub open spec fn handles_alive(self) -> bool {
        forall|i: int|
            0 <= i < self.ops.len() ==> match #[trigger] self.ops[i] {
                Op::Send { .. } | Op::AddTx | Op::RemoveTx => self.states[i].txs > 0,
                Op::TryRecv { .. } | Op::RecvStep { .. } | Op::AddRx | Op::RemoveRx => {
                    self.states[i].rxs > 0
                },
            }
    }

    /// Nothing is left to receive.
    pub open spec fn drained(self) -> bool {
        self.states.last().groups.len() == 0
    }

    /// The record without its last call.
    pub open spec fn before_last(self) -> Self {
        Run { states: self.states.drop_last(), ops: self.ops.drop_last() }
    }
}

/// Each group in the queue is accounted for by the raw events of one window, which fold to what the
/// group holds, and is ready `debounce_time` after the first of them.
pub open spec fn accounts_for<T, R>(
    groups: Seq<EventAcc<T>>,
    windows: Seq<Seq<SentEvent<R>>>,
    f: FoldModel<T, R>,
    debounce_time: nat,
) -> bool {
    &&& windows.len() == groups.len()
    &&& forall|i: int|
        #![trigger groups[i]]
        #![trigger windows[i]]
        0 <= i < groups.len() ==> {
            &&& groups[i].acc is Some
            &&& folds_to(f, windows[i], groups[i].acc)
            &&& is_window(windows[i], debounce_time)
            &&& groups[i].ready_time == windows[i][0].now + debounce_time
        }
}

/// Folding in one more event.
proof fn lemma_fold_one_more<T, R>(
    f: FoldModel<T, R>,
    events: Seq<SentEvent<R>>,
    before: Option<T>,
    added: SentEvent<R>,
    joined: T,
)
    requires
        folds_to(f, events, before),
        f.can_give(before, added.event, joined),
    ensures
        folds_to(f, events.push(added), Some(joined)),
{
    let accs = choose|accs: Seq<Option<T>>| #[trigger]
        folds_through(f, events, accs) && accs.last() == before;
    let events_after = events.push(added);
    let accs_after = accs.push(Some(joined));
    assert forall|k: int| 0 <= k < events_after.len() implies folds_in(
        f,
        accs_after[k],
        (#[trigger] events_after[k]).event,
        accs_after[k + 1],
    ) by {}
    assert(folds_through(f, events_after, accs_after));
}

/// A send that is not refused keeps the account.
proof fn lemma_send_accounts<T, R>(
    pre: Seq<EventAcc<T>>,
    post: Seq<EventAcc<T>>,
    windows: Seq<Seq<SentEvent<R>>>,
    event: R,
    f: FoldModel<T, R>,
    now: nat,
    debounce_time: nat,
)
    requires
        accounts_for(pre, windows, f, debounce_time),
        pushes(pre, post, event, f, now, debounce_time),
    ensures
        ({
            let added = SentEvent { event, now };
            let windows_after = if joins_last(pre, now) {
                windows.drop_last().push(windows.last().push(added))
            } else {
                windows.push(seq![added])
            };
            accounts_for(post, windows_after, f, debounce_time)
        }),
{
    let added = SentEvent { event, now };
    let n = post.len() - 1;
    assert(post == post.drop_last().push(post.last()));
    if joins_last(pre, now) {
        let last = windows.last().push(added);
        let windows_after = windows.drop_last().push(last);
        lemma_fold_one_more(f, windows.last(), pre.last().acc, added, post.last().acc->0);
        assert forall|i: int| 0 <= i < n implies #[trigger] windows_after[i] == windows[i]
            && #[trigger] post[i] == pre[i] by {}
    } else {
        let first = seq![added];
        let windows_after = windows.push(first);
        assert(folds_through(f, Seq::<SentEvent<R>>::empty(), seq![None::<T>]));
        lemma_fold_one_more(f, seq![], None, added, post.last().acc->0);
        assert forall|i: int| 0 <= i < n implies #[trigger] windows_after[i] == windows[i]
            && #[trigger] post[i] == pre[i] by {}
    }
}

/// The state that a run leaves behind is accounted for by the windows that are pending after it,
/// and what was received by the windows that were delivered.
proof fn lemma_run_accounts<T, R>(run: Run<R, T>, f: FoldModel<T, R>, debounce_time: nat)
    requires
        run.valid(f, debounce_time),
    ensures
        accounts_for(run.states.last().groups, pending(run.ops), f, debounce_time),
        delivered(run.ops).len() == received(run.ops).len(),
        forall|i: int|
            0 <= i < delivered(run.ops).len() ==> {
                &&& folds_to(f, #[trigger] delivered(run.ops)[i], Some(received(run.ops)[i]))
                &&& is_window(delivered(run.ops)[i], debounce_time)
            },
        delivered(run.ops).flatten() + pending(run.ops).flatten() == sent(run.ops),
        spaced(run.states.last().groups, debounce_time),
    decreases run.ops.len(),
{
    if run.ops.len() > 0 {
        let earlier = run.before_last();
        lemma_before_last(run, f, debounce_time);
        lemma_run_accounts(earlier, f, debounce_time);
        let op = run.ops.last();
        let pre = earlier.states.last();
        let post = run.states.last();
        let windows = pending(earlier.ops);
        let done = delivered(earlier.ops);
        match op {
            Op::Send { event, now, result } => {
                if pre.rxs > 0 {
                    let added = SentEvent { event, now };
                    lemma_send_accounts(
                        pre.groups,
                        post.groups,
                        windows,
                        event,
                        f,
                        now,
                        debounce_time,
                    );
                    if joins_last(pre.groups, now) {
                        let rest = windows.drop_last();
                        assert(windows == rest.push(windows.last()));
                        rest.lemma_flatten_push(windows.last());
                        rest.lemma_flatten_push(windows.last().push(added));
                    } else {
                        windows.lemma_flatten_push(seq![added]);
                    }
                    lemma_send_keeps_spacing(
                        pre.groups,
                        post.groups,
                        event,
                        f,
                        now,
                        debounce_time,
                    );
                }
            },
            _ => {
                if op.received() is Some {
                    done.lemma_flatten_push(windows[0]);
                }
            },
        }
    }
}

/// A record without its last call is a record too.
proof fn lemma_before_last<T, R>(run: Run<R, T>, f: FoldModel<T, R>, debounce_time: nat)
    requires
        run.valid(f, debounce_time),
        run.ops.len() > 0,
    ensures
        run.before_last().valid(f, debounce_time),
        run.ops.last().steps(
            run.before_last().states.last(),
            run.states.last(),
            f,
            debounce_time,
        ),
{
    let earlier = run.before_last();
    assert forall|i: int| 0 <= i < earlier.ops.len() implies (#[trigger] earlier.ops[i]).steps(
        earlier.states[i],
        earlier.states[i + 1],
        f,
        debounce_time,
    ) by {}
}

/// A send keeps the groups spaced.
proof fn lemma_send_keeps_spacing<T, R>(
    pre: Seq<EventAcc<T>>,
    post: Seq<EventAcc<T>>,
    event: R,
    f: FoldModel<T, R>,
    now: nat,
    debounce_time: nat,
)
    requires
        spaced(pre, debounce_time),
        pushes(pre, post, event, f, now, debounce_time),
    ensures
        spaced(post, debounce_time),
{
    assert forall|i: int, j: int| 0 <= i < j < post.len() implies #[trigger] post[i].ready_time
        + debounce_time <= #[trigger] post[j].ready_time by {
        assert(post[i] == post.drop_last()[i]);
        if joins_last(pre, now) {
            assert(post.drop_last().len() == pre.drop_last().len());
        }
        if j < post.len() - 1 {
            assert(post[j] == post.drop_last()[j]);
        }
    }
}

/// Nothing that is sent is lost, duplicated or put out of order: the raw events of the groups that
/// were received, followed by those of the groups that are still waiting, are exactly the raw
/// events that were sent.
pub proof fn law_nothing_is_lost<T, R>(run: Run<R, T>, f: FoldModel<T, R>, debounce_time: nat)
    requires
        run.valid(f, debounce_time),
    ensures
        delivered(run.ops).flatten() + pending(run.ops).flatten() == sent(run.ops),
{
    lemma_run_accounts(run, f, debounce_time);
}

/// Every event that is received is what the fold function makes of the raw events of its group, one
/// after the other, starting from nothing; and so is what every waiting group holds.
pub proof fn law_events_are_folded_groups<T, R>(
    run: Run<R, T>,
    f: FoldModel<T, R>,
    debounce_time: nat,
)
    requires
        run.valid(f, debounce_time),
    ensures
        received(run.ops).len() == delivered(run.ops).len(),
        forall|i: int|
            0 <= i < received(run.ops).len() ==> #[trigger] folds_to(
                f,
                delivered(run.ops)[i],
                Some(received(run.ops)[i]),
            ),
        accounts_for(run.states.last().groups, pending(run.ops), f, debounce_time),
{
    lemma_run_accounts(run, f, debounce_time);
}

/// All raw events of a group were sent before the debounce time had passed since the first of them.
pub proof fn law_groups_are_windows<T, R>(run: Run<R, T>, f: FoldModel<T, R>, debounce_time: nat)
    requires
        run.valid(f, debounce_time),
    ensures
        forall|i: int|
            0 <= i < delivered(run.ops).len() ==> is_window(
                #[trigger] delivered(run.ops)[i],
                debounce_time,
            ),
        forall|i: int|
            0 <= i < pending(run.ops).len() ==> is_window(
                #[trigger] pending(run.ops)[i],
                debounce_time,
            ),
{
    lemma_run_accounts(run, f, debounce_time);
}

/// At any moment, the groups that wait become ready in the order in which they wait, and any two of
/// them at least the debounce time apart.
pub proof fn law_groups_stay_spaced<T, R>(run: Run<R, T>, f: FoldModel<T, R>, debounce_time: nat)
    requires
        run.valid(f, debounce_time),
    ensures
        spaced(run.states.last().groups, debounce_time),
{
    lemma_run_accounts(run, f, debounce_time);
}

/// While there is a sender left, no event is received before the debounce time has passed since the
/// first raw event of its group was sent.
pub proof fn law_nothing_is_received_early<T, R>(
    run: Run<R, T>,
    f: FoldModel<T, R>,
    debounce_time: nat,
)
    requires
        run.valid(f, debounce_time),
        run.ops.len() > 0,
        run.ops.last().received() is Some,
        run.before_last().states.last().txs > 0,
    ensures
        delivered(run.ops).last()[0].now + debounce_time <= run.ops.last().time()->0,
{
    lemma_before_last(run, f, debounce_time);
    lemma_run_accounts(run.before_last(), f, debounce_time);
}

/// A group that was started at some time is received, events and all, by the first receiver who comes
/// when the debounce time has passed since then, or when there is no sender left, and finds it the
/// oldest.
pub proof fn law_ready_groups_are_received<T, R>(
    run: Run<R, T>,
    f: FoldModel<T, R>,
    debounce_time: nat,
)
    requires
        run.valid(f, debounce_time),
        run.ops.len() > 0,
        run.ops.last().is_receive(),
        pending(run.before_last().ops).len() > 0,
        ({
            let started = pending(run.before_last().ops)[0][0].now;
            started + debounce_time <= run.ops.last().time()->0
                || run.before_last().states.last().txs == 0
        }),
    ensures
        run.ops.last().received() is Some,
        delivered(run.ops).last() == pending(run.before_last().ops)[0],
        pending(run.ops) == pending(run.before_last().ops).drop_first(),
{
    lemma_before_last(run, f, debounce_time);
    lemma_run_accounts(run.before_last(), f, debounce_time);
}

/// A receiver who waits for the oldest group waits until exactly the debounce time has passed since the
/// group was started; and a receiver waits for an event to be sent only where no group waits.
pub proof fn law_receivers_wait_for_the_debounce_time<T, R>(
    run: Run<R, T>,
    f: FoldModel<T, R>,
    debounce_time: nat,
)
    requires
        run.valid(f, debounce_time),
        run.ops.len() > 0,
    ensures
        ({
            let windows = pending(run.before_last().ops);
            match run.ops.last() {
                Op::RecvStep { now, step: PopStep::WaitForReady(wait_time) } => {
                    &&& windows.len() > 0
                    &&& now + wait_time == windows[0][0].now + debounce_time
                },
                Op::RecvStep { now, step: PopStep::WaitForPush } => windows.len() == 0,
                _ => true,
            }
        }),
{
    lemma_before_last(run, f, debounce_time);
    lemma_run_accounts(run.before_last(), f, debounce_time);
}

/// The number of calls of which `pick` holds.
pub open spec fn count_of<R, T>(ops: Seq<Op<R, T>>, pick: spec_fn(Op<R, T>) -> bool) -> nat
    decreases ops.len(),
{
    if ops.len() == 0 {
        0
    } else {
        count_of(ops.drop_last(), pick) + if pick(ops.last()) {
            1nat
        } else {
            0
        }
    }
}

/// The number of times that a sender was cloned.
pub open spec fn senders_cloned<R, T>(ops: Seq<Op<R, T>>) -> nat {
    count_of(ops, |op: Op<R, T>| op is AddTx)
}

/// The number of times that a sender was dropped.
pub open spec fn senders_dropped<R, T>(ops: Seq<Op<R, T>>) -> nat {
    count_of(ops, |op: Op<R, T>| op is RemoveTx)
}

/// The number of times that a receiver was cloned.
pub open spec fn receivers_cloned<R, T>(ops: Seq<Op<R, T>>) -> nat {
    count_of(ops, |op: Op<R, T>| op is AddRx)
}

/// The number of times that a receiver was dropped.
pub open spec fn receivers_dropped<R, T>(ops: Seq<Op<R, T>>) -> nat {
    count_of(ops, |op: Op<R, T>| op is RemoveRx)
}

/// The senders that are counted are those that were there at first and those that were cloned, without
/// those that were dropped; and so are the receivers. Nothing else that is done changes these numbers.
pub proof fn law_handles_are_counted<T, R>(
    run: Run<R, T>,
    f: FoldModel<T, R>,
    debounce_time: nat,
)
    requires
        run.valid(f, debounce_time),
        run.handles_alive(),
    ensures
        run.states.last().txs + senders_dropped(run.ops) == run.states[0].txs + senders_cloned(
            run.ops,
        ),
        run.states.last().rxs + receivers_dropped(run.ops) == run.states[0].rxs + receivers_cloned(
            run.ops,
        ),
    decreases run.ops.len(),
{
    if run.ops.len() > 0 {
        let earlier = run.before_last();
        lemma_before_last(run, f, debounce_time);
        assert forall|i: int| 0 <= i < earlier.ops.len() implies #[trigger] earlier.ops[i]
            == run.ops[i] && earlier.states[i] == run.states[i] by {}
        law_handles_are_counted(earlier, f, debounce_time);
    }
}

/// No receiver is told that the debouncer is closed while there is a sender: before that, every sender
/// that was there at first or was cloned has been dropped.
pub proof fn law_closed_only_without_senders<T, R>(
    run: Run<R, T>,
    f: FoldModel<T, R>,
    debounce_time: nat,
)
    requires
        run.valid(f, debounce_time),
        run.handles_alive(),
        run.ops.len() > 0,
        run.ops.last().says_closed(),
    ensures
        senders_dropped(run.ops) == run.states[0].txs + senders_cloned(run.ops),
{
    lemma_before_last(run, f, debounce_time);
    law_handles_are_counted(run, f, debounce_time);
}

/// Where the clock does not go back, events that are far enough apart are in different groups: each
/// group starts no earlier than the debounce time after the start of any group before it, whether
/// that one is still waiting or was received.
pub proof fn law_groups_start_apart<T, R>(run: Run<R, T>, f: FoldModel<T, R>, debounce_time: nat)
    requires
        run.valid(f, debounce_time),
        run.times_ordered(),
        run.handles_alive(),
    ensures
        start_apart(delivered(run.ops) + pending(run.ops), debounce_time),
{
    let latest = lemma_latest_time(run.ops);
    lemma_groups_start_apart(run, f, debounce_time, latest);
}

/// Each window starts at least `debounce_time` after the start of any window before it.
pub open spec fn start_apart<R>(windows: Seq<Seq<SentEvent<R>>>, debounce_time: nat) -> bool {
    forall|i: int, j: int|
        0 <= i < j < windows.len() ==> (#[trigger] windows[i])[0].now + debounce_time <= (
        #[trigger] windows[j])[0].now
}

/// No call was told a later time than `latest`.
spec fn none_later<R, T>(ops: Seq<Op<R, T>>, latest: nat) -> bool {
    forall|i: int|
        0 <= i < ops.len() && (#[trigger] ops[i]).time() is Some ==> ops[i].time()->0 <= latest
}

/// Some time is not earlier than any that a call was told.
proof fn lemma_latest_time<R, T>(ops: Seq<Op<R, T>>) -> (latest: nat)
    ensures
        none_later(ops, latest),
    decreases ops.len(),
{
    if ops.len() == 0 {
        0
    } else {
        let earlier = lemma_latest_time(ops.drop_last());
        let own = match ops.last().time() {
            Some(now) => now,
            None => 0,
        };
        let latest = if own > earlier {
            own
        } else {
            earlier
        };
        assert forall|i: int| 0 <= i < ops.len() && (#[trigger] ops[i]).time() is Some implies
            ops[i].time()->0 <= latest by {
            if i < ops.len() - 1 {
                assert(ops[i] == ops.drop_last()[i]);
            }
        }
        latest
    }
}

/// Groups start apart; and while there are senders, the debounce time has passed since the start of
/// every group that was received.
proof fn lemma_groups_start_apart<T, R>(
    run: Run<R, T>,
    f: FoldModel<T, R>,
    debounce_time: nat,
    latest: nat,
)
    requires
        run.valid(f, debounce_time),
        run.times_ordered(),
        run.handles_alive(),
        none_later(run.ops, latest),
    ensures
        start_apart(delivered(run.ops) + pending(run.ops), debounce_time),
        run.states.last().txs > 0 ==> forall|i: int|
            0 <= i < delivered(run.ops).len() ==> (#[trigger] delivered(run.ops)[i])[0].now
                + debounce_time <= latest,
    decreases run.ops.len(),
{
    if run.ops.len() > 0 {
        let earlier = run.before_last();
        let op = run.ops.last();
        let pre = earlier.states.last();
        let windows = pending(earlier.ops);
        let done = delivered(earlier.ops);
        let before = done + windows;
        let after = delivered(run.ops) + pending(run.ops);
        let own = match op.time() {
            Some(now) => now,
            None => latest,
        };
        lemma_before_last(run, f, debounce_time);
        lemma_run_accounts(earlier, f, debounce_time);
        assert forall|i: int| 0 <= i < earlier.ops.len() implies #[trigger] earlier.ops[i]
            == run.ops[i] && earlier.states[i] == run.states[i] by {}
        lemma_groups_start_apart(earlier, f, debounce_time, own);
        match op {
            Op::Send { event, now, result } => {
                if pre.rxs > 0 {
                    let added = SentEvent { event, now };
                    if joins_last(pre.groups, now) {
                        assert forall|i: int| 0 <= i < after.len() implies (#[trigger] after[i])[0]
                            == before[i][0] by {}
                    } else {
                        assert(after == before.push(seq![added]));
                        assert forall|i: int| 0 <= i < before.len() implies (
                        #[trigger] before[i])[0].now + debounce_time <= now by {}
                    }
                }
            },
            _ => {
                if op.received() is Some {
                    assert(after == before);
                }
            },
        }
    }
}

/// The windows into which a debouncer groups raw events that are sent to it: an event belongs to the
/// window before it if less than `debounce_time` has passed since that window started, and starts a
/// new window otherwise.
pub open spec fn windows_of<R>(sent: Seq<SentEvent<R>>, debounce_time: nat) -> Seq<
    Seq<SentEvent<R>>,
>
    decreases sent.len(),
{
    if sent.len() == 0 {
        seq![]
    } else {
        let before = windows_of(sent.drop_last(), debounce_time);
        let added = sent.last();
        if before.len() > 0 && added.now < before.last()[0].now + debounce_time {
            before.drop_last().push(before.last().push(added))
        } else {
            before.push(seq![added])
        }
    }
}

/// Where the clock does not go back, how raw events are grouped depends on what was sent and when,
/// and on nothing else.
pub proof fn law_grouping_depends_on_sends_alone<T, R>(
    run: Run<R, T>,
    f: FoldModel<T, R>,
    debounce_time: nat,
)
    requires
        run.valid(f, debounce_time),
        run.times_ordered(),
        run.handles_alive(),
    ensures
        delivered(run.ops) + pending(run.ops) == windows_of(sent(run.ops), debounce_time),
    decreases run.ops.len(),
{
    if run.ops.len() > 0 {
        let earlier = run.before_last();
        let op = run.ops.last();
        let pre = earlier.states.last();
        let windows = pending(earlier.ops);
        let done = delivered(earlier.ops);
        let before = done + windows;
        let after = delivered(run.ops) + pending(run.ops);
        lemma_before_last(run, f, debounce_time);
        lemma_run_accounts(earlier, f, debounce_time);
        assert forall|i: int| 0 <= i < earlier.ops.len() implies #[trigger] earlier.ops[i]
            == run.ops[i] && earlier.states[i] == run.states[i] by {}
        law_grouping_depends_on_sends_alone(earlier, f, debounce_time);
        match op {
            Op::Send { event, now, result } => {
                lemma_groups_start_apart(earlier, f, debounce_time, now);
                if pre.rxs > 0 {
                    let added = SentEvent { event, now };
                    assert(sent(run.ops).drop_last() == sent(earlier.ops));
                    if joins_last(pre.groups, now) {
                        assert(after == before.drop_last().push(before.last().push(added)));
                    } else {
                        assert(after == before.push(seq![added]));
                    }
                }
            },
            _ => {
                if op.received() is Some {
                    assert(after == before);
                }
            },
        }
    }
}

/// Receiving early or late, often or not at all, never changes how raw events are grouped, nor the
/// order of the groups: two debouncers to which the same was sent at the same times have made the
/// same groups, whether received or still waiting.
pub proof fn law_receiving_does_not_change_groups<T, R>(
    one: Run<R, T>,
    other: Run<R, T>,
    f: FoldModel<T, R>,
    debounce_time: nat,
)
    requires
        one.valid(f, debounce_time),
        one.times_ordered(),
        one.handles_alive(),
        other.valid(f, debounce_time),
        other.times_ordered(),
        other.handles_alive(),
        sent(one.ops) == sent(other.ops),
    ensures
        delivered(one.ops) + pending(one.ops) == delivered(other.ops) + pending(other.ops),
{
    law_grouping_depends_on_sends_alone(one, f, debounce_time);
    law_grouping_depends_on_sends_alone(other, f, debounce_time);
}

/// The fold function gives the same result whenever it is given the same.
pub open spec fn deterministic<T, R>(f: FoldModel<T, R>) -> bool {
    forall|acc: Option<T>, event: R, one: T, other: T| #[trigger]
        f.can_give(acc, event, one) && #[trigger] f.can_give(acc, event, other) ==> one == other
}

/// With a fold function that depends on its arguments alone, two debouncers to which the same was
/// sent at the same times have given out the same events in the same order once nothing is left to
/// receive, whenever and however often their receivers tried in between.
pub proof fn law_receivers_get_the_same_events<T, R>(
    one: Run<R, T>,
    other: Run<R, T>,
    f: FoldModel<T, R>,
    debounce_time: nat,
)
    requires
        one.valid(f, debounce_time),
        one.times_ordered(),
        one.handles_alive(),
        one.drained(),
        other.valid(f, debounce_time),
        other.times_ordered(),
        other.handles_alive(),
        other.drained(),
        sent(one.ops) == sent(other.ops),
        deterministic::<T, R>(f),
    ensures
        received(one.ops) == received(other.ops),
{
    law_receiving_does_not_change_groups(one, other, f, debounce_time);
    lemma_run_accounts(one, f, debounce_time);
    lemma_run_accounts(other, f, debounce_time);
    assert forall|i: int| 0 <= i < received(one.ops).len() implies #[trigger] received(one.ops)[i]
        == received(other.ops)[i] by {
        lemma_folds_alike(
            f,
            delivered(one.ops)[i],
            received(one.ops)[i],
            received(other.ops)[i],
        );
    }
}

/// A deterministic fold makes one thing of one window.
proof fn lemma_folds_alike<T, R>(f: FoldModel<T, R>, window: Seq<SentEvent<R>>, one: T, other: T)
    requires
        deterministic::<T, R>(f),
        folds_to(f, window, Some(one)),
        folds_to(f, window, Some(other)),
    ensures
        one == other,
{
    let accs = choose|accs: Seq<Option<T>>| #[trigger]
        folds_through(f, window, accs) && accs.last() == Some(one);
    let other_accs = choose|accs: Seq<Option<T>>| #[trigger]
        folds_through(f, window, accs) && accs.last() == Some(other);
    lemma_folds_alike_prefix(f, window, accs, other_accs, window.len() as int);
}

/// After any number of folds, a deterministic fold has come to one thing.
proof fn lemma_folds_alike_prefix<T, R>(
    f: FoldModel<T, R>,
    window: Seq<SentEvent<R>>,
    accs: Seq<Option<T>>,
    other_accs: Seq<Option<T>>,
    k: int,
)
    requires
        deterministic::<T, R>(f),
        folds_through(f, window, accs),
        folds_through(f, window, other_accs),
        0 <= k <= window.len(),
    ensures
        accs[k] == other_accs[k],
    decreases k,
{
    if k > 0 {
        lemma_folds_alike_prefix(f, window, accs, other_accs, k - 1);
        assert(folds_in(f, accs[k - 1], window[k - 1].event, accs[k - 1 + 1]));
    }
}

/// Once a receiver is told that the debouncer is closed, everything that was sent has been received:
/// the raw events of the groups that were received are exactly the raw events that were sent, in
/// order, and no group was empty.
pub proof fn law_everything_sent_is_received<T, R>(
    run: Run<R, T>,
    f: FoldModel<T, R>,
    debounce_time: nat,
)
    requires
        run.valid(f, debounce_time),
        run.ops.len() > 0,
        run.ops.last().says_closed(),
    ensures
        run.drained(),
        received(run.ops).len() == delivered(run.ops).len(),
        delivered(run.ops).flatten() == sent(run.ops),
        forall|i: int|
            0 <= i < delivered(run.ops).len() ==> (#[trigger] delivered(run.ops)[i]).len() > 0,
{
    lemma_before_last(run, f, debounce_time);
    lemma_run_accounts(run, f, debounce_time);
    lemma_skip_lost_front(run.before_last().states.last().groups);
}

/// What is left when a receiver has tried to receive at each of the given times.
pub open spec fn after_receives<T>(state: StateModel<T>, times: Seq<nat>) -> StateModel<T>
    decreases times.len(),
{
    if times.len() == 0 {
        state
    } else {
        after_receives(state, times.drop_last()).after_receive(times.last())
    }
}

/// The groups that have not lost their events.
pub open spec fn with_events<T>(groups: Seq<EventAcc<T>>) -> Seq<EventAcc<T>> {
    groups.filter(|group: EventAcc<T>| group.acc is Some)
}

/// Once the last sender has gone, what remains is received without any waiting, group after group
/// in order, and after that every receiver is told that the debouncer is closed. Nothing that was
/// sent before is lost.
pub proof fn law_closed_debouncer_drains<T>(state: StateModel<T>, times: Seq<nat>, now: nat)
    requires
        state.txs == 0,
    ensures
        after_receives(state, times).received(now) == if times.len() < with_events(
            state.groups,
        ).len() {
            Ok(with_events(state.groups)[times.len() as int].acc)
        } else {
            Err(ReceiveError)
        },
{
    lemma_drain(state, times);
    let left = after_receives(state, times);
    lemma_skip_lost_filter(left.groups);
}

/// Skipping lost groups at the front does not change which groups have events.
proof fn lemma_skip_lost_filter<T>(groups: Seq<EventAcc<T>>)
    ensures
        ({
            let kept = skip_lost(groups);
            &&& kept.len() == 0 <==> with_events(groups).len() == 0
            &&& kept.len() > 0 ==> {
                &&& kept[0] == with_events(groups)[0]
                &&& with_events(kept.drop_first()) == with_events(groups).drop_first()
            }
        }),
    decreases groups.len(),
{
    let has_events = |group: EventAcc<T>| group.acc is Some;
    if groups.len() == 0 {
        reveal(Seq::filter);
    } else {
        let front = seq![groups[0]];
        let rest = groups.drop_first();
        assert(groups == front + rest);
        Seq::filter_distributes_over_add(front, rest, has_events);
        assert(front.filter(has_events) == if has_events(groups[0]) {
            front
        } else {
            Seq::empty()
        }) by {
            reveal(Seq::filter);
            reveal_with_fuel(Seq::filter, 2);
        }
        if groups[0].acc is None {
            lemma_skip_lost_filter(rest);
        }
    }
}

/// Skipping lost groups at the front only while they are ready does not change which groups have
/// events either.
proof fn lemma_skip_lost_ready_filter<T>(groups: Seq<EventAcc<T>>, now: nat)
    ensures
        ({
            let kept = skip_lost_ready(groups, now);
            &&& with_events(kept) == with_events(groups)
            &&& kept.len() > 0 && kept[0].acc is Some ==> {
                &&& with_events(groups).len() > 0
                &&& kept[0] == with_events(groups)[0]
                &&& with_events(kept.drop_first()) == with_events(groups).drop_first()
            }
        }),
    decreases groups.len(),
{
    let has_events = |group: EventAcc<T>| group.acc is Some;
    if groups.len() > 0 {
        let front = seq![groups[0]];
        let rest = groups.drop_first();
        assert(groups == front + rest);
        Seq::filter_distributes_over_add(front, rest, has_events);
        assert(front.filter(has_events) == if has_events(groups[0]) {
            front
        } else {
            Seq::empty()
        }) by {
            reveal(Seq::filter);
            reveal_with_fuel(Seq::filter, 2);
        }
        if groups[0].acc is None && groups[0].ready_time <= now {
            lemma_skip_lost_ready_filter(rest, now);
        }
    }
}

/// Receiving takes away the group whose events it gives out, which is the oldest that has events, and
/// no other group that has any. Where it gives out nothing, every group that has events is still
/// there. The numbers of senders and receivers stay as they are.
pub proof fn law_receiving_takes_one_group<T>(state: StateModel<T>, now: nat)
    ensures
        ({
            let before = with_events(state.groups);
            let after = with_events(state.after_receive(now).groups);
            match state.received(now) {
                Ok(Some(event)) => {
                    &&& before.len() > 0
                    &&& before[0].acc == Some(event)
                    &&& after == before.drop_first()
                },
                _ => after == before,
            }
        }),
        state.after_receive(now).txs == state.txs,
        state.after_receive(now).rxs == state.rxs,
{
    lemma_skip_lost_filter(state.groups);
    lemma_skip_lost_front(state.groups);
    lemma_skip_lost_ready_filter(state.groups, now);
    lemma_skip_lost_ready_front(state.groups, now);
}

/// What is received is the first candidate, which is the oldest group that has events.
pub proof fn lemma_candidates_front<T>(state: StateModel<T>, now: nat)
    ensures
        state.received(now) matches Ok(Some(event)) ==> {
            &&& state.candidates(now).len() > 0
            &&& state.candidates(now)[0].acc == Some(event)
            &&& with_events(state.groups).len() > 0
            &&& state.candidates(now)[0] == with_events(state.groups)[0]
        },
{
    lemma_skip_lost_filter(state.groups);
    lemma_skip_lost_ready_filter(state.groups, now);
}

/// A receiver is told that the debouncer is closed if and only if there is no sender and no group that
/// has events.
pub proof fn law_closed_means_nothing_to_come<T>(state: StateModel<T>, now: nat)
    ensures
        state.received(now) is Err <==> state.txs == 0 && with_events(state.groups).len() == 0,
        state.step(now) is Closed <==> state.txs == 0 && with_events(state.groups).len() == 0,
{
    lemma_skip_lost_filter(state.groups);
    lemma_skip_lost_front(state.groups);
    lemma_skip_lost_ready_front(state.groups, now);
}

/// Each receive takes away the oldest group that has events.
proof fn lemma_drain<T>(state: StateModel<T>, times: Seq<nat>)
    requires
        state.txs == 0,
    ensures
        after_receives(state, times).txs == 0,
        with_events(after_receives(state, times).groups) == if times.len() <= with_events(
            state.groups,
        ).len() {
            with_events(state.groups).skip(times.len() as int)
        } else {
            Seq::empty()
        },
    decreases times.len(),
{
    if times.len() > 0 {
        lemma_drain(state, times.drop_last());
        lemma_skip_lost_filter(after_receives(state, times.drop_last()).groups);
        lemma_skip_lost_filter(after_receives(state, times).groups);
    }
}

/// A receiver that is told to wait is told to wait for the right thing and for no longer than
/// needed. If nothing changes meanwhile, there is nothing to receive before the wait is over; and
/// then there is, unless the group was one that has lost its events.
pub proof fn law_waits_are_exact<T>(state: StateModel<T>, now: nat)
    ensures
        ({
            let left = state.after_receive(now);
            match state.step(now) {
                PopStep::WaitForPush => {
                    &&& left.groups.len() == 0
                    &&& forall|t: nat| !(#[trigger] left.deliverable(t))
                },
                PopStep::WaitForReady(wait_time) => {
                    &&& wait_time > 0
                    &&& forall|t: nat| t < now + wait_time ==> !(#[trigger] left.deliverable(t))
                    &&& left.groups[0].acc is Some ==> left.deliverable(now + wait_time as nat)
                },
                _ => true,
            }
        }),
{
    lemma_skip_lost_front(state.groups);
    lemma_skip_lost_ready_front(state.groups, now);
}

/// Dropping a fresh clone of a sender or a receiver leaves everything as it was.
pub proof fn law_dropping_a_clone_undoes_it<T, R>(
    pre: StateModel<T>,
    between: StateModel<T>,
    post: StateModel<T>,
    f: FoldModel<T, R>,
    debounce_time: nat,
)
    requires
        ({
            ||| Op::<R, T>::AddTx.steps(pre, between, f, debounce_time)
                && Op::<R, T>::RemoveTx.steps(between, post, f, debounce_time)
            ||| Op::<R, T>::AddRx.steps(pre, between, f, debounce_time)
                && Op::<R, T>::RemoveRx.steps(between, post, f, debounce_time)
        }),
    ensures
        post == pre,
{
}

/// Once the last receiver has gone, every event that is sent is handed back and changes nothing.
pub proof fn law_without_receivers_nothing_is_taken<T, R>(
    run: Run<R, T>,
    f: FoldModel<T, R>,
    debounce_time: nat,
    i: int,
    j: int,
)
    requires
        run.valid(f, debounce_time),
        run.handles_alive(),
        0 <= i <= j < run.ops.len(),
        run.states[i].rxs == 0,
    ensures
        run.ops[j] matches Op::Send { event, result, .. } ==> {
            &&& result == Err::<PushOutcome, SendError<R>>(SendError(event))
            &&& run.states[j + 1] == run.states[j]
        },
{
    lemma_receivers_stay_gone(run, f, debounce_time, i, j);
}

/// Receivers do not come back once there is none left to clone.
proof fn lemma_receivers_stay_gone<T, R>(
    run: Run<R, T>,
    f: FoldModel<T, R>,
    debounce_time: nat,
    i: int,
    j: int,
)
    requires
        run.valid(f, debounce_time),
        run.handles_alive(),
        0 <= i <= j < run.states.len(),
        run.states[i].rxs == 0,
    ensures
        run.states[j].rxs == 0,
    decreases j - i,
{
    if i < j {
        lemma_receivers_stay_gone(run, f, debounce_time, i, j - 1);
        assert(run.ops[j - 1].steps(run.states[j - 1], run.states[j - 1 + 1], f, debounce_time));
    }
}

impl<R, T> Op<R, T> {
    /// A receiver was told by this call that the debouncer is closed.
    pub open spec fn says_closed(self) -> bool {
        match self {
            Op::TryRecv { result: Err(_), .. } => true,
            Op::RecvStep { step: PopStep::Closed, .. } => true,
            _ => false,
        }
    }

    /// A receiver tried to receive by this call.
    pub open spec fn is_receive(self) -> bool {
        self is TryRecv || self is RecvStep
    }
}

/// A debouncer that is closed stays closed: after one receiver was told so, all are.
pub proof fn law_closed_stays_closed<T, R>(
    run: Run<R, T>,
    f: FoldModel<T, R>,
    debounce_time: nat,
    i: int,
    j: int,
)
    requires
        run.valid(f, debounce_time),
        run.handles_alive(),
        0 <= i < j < run.ops.len(),
        run.ops[i].says_closed(),
        run.ops[j].is_receive(),
    ensures
        run.ops[j].says_closed(),
{
    lemma_skip_lost_front(run.states[i].groups);
    lemma_stays_closed(run, f, debounce_time, i + 1, j);
}

/// Without senders, an empty queue stays empty.
proof fn lemma_stays_closed<T, R>(
    run: Run<R, T>,
    f: FoldModel<T, R>,
    debounce_time: nat,
    i: int,
    j: int,
)
    requires
        run.valid(f, debounce_time),
        run.handles_alive(),
        0 <= i <= j < run.states.len(),
        run.states[i].txs == 0,
        run.states[i].groups.len() == 0,
    ensures
        run.states[j].txs == 0,
        run.states[j].groups.len() == 0,
    decreases j - i,
{
    if i < j {
        lemma_stays_closed(run, f, debounce_time, i, j - 1);
        assert(run.ops[j - 1].steps(run.states[j - 1], run.states[j - 1 + 1], f, debounce_time));
    }
}

/// The raw events without the times at which they were sent.
pub open spec fn events_of<R>(window: Seq<SentEvent<R>>) -> Seq<R> {
    window.map_values(|sent: SentEvent<R>| sent.event)
}

/// The events of a debouncer which pushes its raw events to vectors, and those of its waiting
/// groups, all in one sequence.
pub open spec fn all_pushed<R>(events: Seq<Vec<R>>, groups: Seq<EventAcc<Vec<R>>>) -> Seq<R> {
    events.map_values(|event: Vec<R>| event@).flatten() + groups.map_values(
        |group: EventAcc<Vec<R>>| group.acc->0@,
    ).flatten()
}

/// The fold function pushes every event to the end of a vector, as [`fold_vec_push`] does.
pub open spec fn collects<R>(f: FoldModel<Vec<R>, R>) -> bool {
    forall|acc: Option<Vec<R>>, event: R, folded: Vec<R>| #[trigger]
        f.can_give(acc, event, folded) ==> folded@ == match acc {
            Some(events) => events@.push(event),
            None => seq![event],
        }
}

/// [`fold_vec_push`] pushes every event to the end of a vector.
pub proof fn law_vec_push_collects<R>()
    ensures
        collects(fold_model(fold_vec_push::<R>)),
{
}

/// With [`fold_vec_push`], or a fold function which does the same, each event that is received is the
/// vector of the raw events of its group, in the order in which they were sent; and all the vectors
/// together, received and waiting, hold exactly the raw events that were sent.
pub proof fn law_vec_push_collects_groups<R>(
    run: Run<R, Vec<R>>,
    f: FoldModel<Vec<R>, R>,
    debounce_time: nat,
)
    requires
        collects(f),
        run.valid(f, debounce_time),
    ensures
        received(run.ops).len() == delivered(run.ops).len(),
        forall|i: int|
            0 <= i < received(run.ops).len() ==> (#[trigger] received(run.ops)[i])@ == events_of(
                delivered(run.ops)[i],
            ),
        all_pushed(received(run.ops), run.states.last().groups) == events_of(sent(run.ops)),
{
    lemma_run_accounts(run, f, debounce_time);
    let done = delivered(run.ops);
    let windows = pending(run.ops);
    let groups = run.states.last().groups;
    let event_of = |sent: SentEvent<R>| sent.event;
    assert forall|i: int| 0 <= i < received(run.ops).len() implies (#[trigger] received(
        run.ops,
    )[i])@ == events_of(done[i]) by {
        lemma_vec_push_collects(f, done[i], received(run.ops)[i]);
    }
    assert forall|i: int| 0 <= i < groups.len() implies (#[trigger] groups[i]).acc->0@ == events_of(
        windows[i],
    ) by {
        lemma_vec_push_collects(f, windows[i], groups[i].acc->0);
    }
    let pick = |window: Seq<SentEvent<R>>| window.map_values(event_of);
    assert(received(run.ops).map_values(|event: Vec<R>| event@) == done.map_values(pick));
    assert(groups.map_values(|group: EventAcc<Vec<R>>| group.acc->0@) == windows.map_values(pick));
    lemma_flatten_events(done);
    lemma_flatten_events(windows);
}

/// With [`fold_vec_push`], or a fold function which does the same, once a receiver is told that the
/// debouncer is closed, the vectors that were received hold, one after the other, exactly the raw
/// events that were sent, and none of them is empty.
pub proof fn law_vec_push_receives_everything<R>(
    run: Run<R, Vec<R>>,
    f: FoldModel<Vec<R>, R>,
    debounce_time: nat,
)
    requires
        collects(f),
        run.valid(f, debounce_time),
        run.ops.len() > 0,
        run.ops.last().says_closed(),
    ensures
        received(run.ops).map_values(|event: Vec<R>| event@).flatten() == events_of(sent(run.ops)),
        forall|i: int|
            0 <= i < received(run.ops).len() ==> (#[trigger] received(run.ops)[i])@.len() > 0,
{
    law_vec_push_collects_groups(run, f, debounce_time);
    law_everything_sent_is_received(run, f, debounce_time);
    let groups = run.states.last().groups;
    assert(groups.map_values(|group: EventAcc<Vec<R>>| group.acc->0@) == Seq::<Seq<R>>::empty());
}

/// Folding as [`fold_vec_push`] does collects the events.
proof fn lemma_vec_push_collects<R>(
    f: FoldModel<Vec<R>, R>,
    window: Seq<SentEvent<R>>,
    event: Vec<R>,
)
    requires
        collects(f),
        folds_to(f, window, Some(event)),
    ensures
        event@ == events_of(window),
{
    let accs = choose|accs: Seq<Option<Vec<R>>>| #[trigger]
        folds_through(f, window, accs) && accs.last() == Some(event);
    lemma_vec_push_collects_prefix(f, window, accs, window.len() as int);
}

/// After `k` folds, the first `k` events have been collected.
proof fn lemma_vec_push_collects_prefix<R>(
    f: FoldModel<Vec<R>, R>,
    window: Seq<SentEvent<R>>,
    accs: Seq<Option<Vec<R>>>,
    k: int,
)
    requires
        collects(f),
        folds_through(f, window, accs),
        0 <= k <= window.len(),
    ensures
        k == 0 ==> accs[k] is None,
        k > 0 ==> accs[k] is Some && accs[k]->0@ == events_of(window.take(k)),
    decreases k,
{
    if k > 0 {
        lemma_vec_push_collects_prefix(f, window, accs, k - 1);
        assert(folds_in(f, accs[k - 1], window[k - 1].event, accs[k - 1 + 1]));
    }
}

/// Joining the windows and taking the events out of them can be done in either order.
proof fn lemma_flatten_events<R>(windows: Seq<Seq<SentEvent<R>>>)
    ensures
        windows.map_values(
            |window: Seq<SentEvent<R>>| window.map_values(|sent: SentEvent<R>| sent.event),
        ).flatten() == events_of(windows.flatten()),
    decreases windows.len(),
{
    let pick = |window: Seq<SentEvent<R>>| window.map_values(|sent: SentEvent<R>| sent.event);
    if windows.len() > 0 {
        lemma_flatten_events(windows.drop_first());
        assert(windows.map_values(pick).drop_first() == windows.drop_first().map_values(pick));
    }
}

} // verus!

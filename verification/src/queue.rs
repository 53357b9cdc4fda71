//! Groups of raw events and the queue in which they wait to be received.

use std::collections::VecDeque;
use vstd::prelude::*;

verus! {

/// What [`EventAccQueue::push_latest`] did with a raw event.
#[derive(Debug, Clone, Copy, PartialEq, Eq, Structural)]
pub enum PushOutcome {
    /// A new accumulator was added to the end of the queue.
    NewAcc,
    /// The event was folded into the accumulator which was last in the queue.
    NoNewAcc,
}

/// "Event accumulator", created by repeatedly joining raw events using a fold function.
pub struct EventAcc<T> {
    /// The events joined so far. This is `None` while `EventAcc::fold` runs, so that the old
    /// accumulator can be moved into the fold function rather than borrowed, and it stays `None`
    /// if the fold function panics.
    pub acc: Option<T>,
    /// The time at which the accumulator may be received, in nanoseconds.
    pub ready_time: u128,
}

impl<T> EventAcc<T> {
    /// Starts an accumulator from its first raw event.
    pub fn new_from_fold<R, F>(raw_event: R, f: F, ready_time: u128) -> (started: Self) where
        F: FnOnce(Option<T>, R) -> T,

        requires
            f.requires((None, raw_event)),
        ensures
            started.acc matches Some(joined) && f.ensures((None, raw_event), joined),
            started.ready_time == ready_time,
    {
        Self { acc: Some(f(None, raw_event)), ready_time }
    }

    /// Joins one more raw event to the accumulator. The time at which it is ready stays the same.
    pub fn fold<R, F>(&mut self, raw_event: R, f: F) where F: FnOnce(Option<T>, R) -> T
        requires
            f.requires((old(self).acc, raw_event)),
        ensures
            final(self).acc matches Some(joined) && f.ensures((old(self).acc, raw_event), joined),
            final(self).ready_time == old(self).ready_time,
    {
        let acc = self.acc.take();
        self.acc = Some(f(acc, raw_event));
    }

    /// Gives up the accumulator for the events that were joined.
    pub fn into_acc(self) -> (acc: Option<T>)
        ensures
            acc == self.acc,
    {
        self.acc
    }
}

/// Whether a raw event sent at the time `now` belongs to the last group: there is one, and it is
/// not ready yet.
pub open spec fn joins_last<T>(groups: Seq<EventAcc<T>>, now: nat) -> bool {
    groups.len() > 0 && groups.last().ready_time > now
}

/// What the fold function is given for the events joined so far, when a raw event is sent at the
/// time `now`.
pub open spec fn joined_so_far<T>(groups: Seq<EventAcc<T>>, now: nat) -> Option<T> {
    if joins_last(groups, now) {
        groups.last().acc
    } else {
        None
    }
}

/// What a fold function can make of its arguments.
#[verifier::reject_recursive_types(T)]
#[verifier::reject_recursive_types(R)]
pub struct FoldModel<T, R> {
    pub gives: spec_fn(Option<T>, R, T) -> bool,
}

impl<T, R> FoldModel<T, R> {
    /// Folding `event` into what was joined so far can give `joined`.
    pub open spec fn can_give(self, so_far: Option<T>, event: R, joined: T) -> bool {
        (self.gives)(so_far, event, joined)
    }
}

/// What the fold function `f` can make of its arguments.
pub open spec fn fold_model<T, R, F>(f: F) -> FoldModel<T, R> where F: FnOnce(Option<T>, R) -> T {
    FoldModel { gives: |so_far: Option<T>, event: R, joined: T| f.ensures((so_far, event), joined) }
}

/// Sending `raw_event` at the time `now` turns the groups `pre` into the groups `post`. The event
/// is folded into the last group where it belongs to that group, which then keeps its ready time;
/// otherwise the event starts a new group, which is ready once `debounce_time` has passed.
pub open spec fn pushes<T, R>(
    pre: Seq<EventAcc<T>>,
    post: Seq<EventAcc<T>>,
    raw_event: R,
    f: FoldModel<T, R>,
    now: nat,
    debounce_time: nat,
) -> bool {
    &&& post.len() > 0
    &&& post.last().acc matches Some(joined) && f.can_give(
        joined_so_far(pre, now),
        raw_event,
        joined,
    )
    &&& if joins_last(pre, now) {
        &&& post.drop_last() == pre.drop_last()
        &&& post.last().ready_time == pre.last().ready_time
    } else {
        &&& post.drop_last() == pre
        &&& post.last().ready_time == now + debounce_time
    }
}

/// The outcome of sending an event at the time `now`.
pub open spec fn push_outcome<T>(groups: Seq<EventAcc<T>>, now: nat) -> PushOutcome {
    if joins_last(groups, now) {
        PushOutcome::NoNewAcc
    } else {
        PushOutcome::NewAcc
    }
}

/// The groups without those at the front which have lost their events to a panicking fold
/// function.
pub open spec fn skip_lost<T>(groups: Seq<EventAcc<T>>) -> Seq<EventAcc<T>>
    decreases groups.len(),
{
    if groups.len() > 0 && groups[0].acc is None {
        skip_lost(groups.drop_first())
    } else {
        groups
    }
}

/// The groups without those at the front which have lost their events and are ready at the time
/// `now`.
pub open spec fn skip_lost_ready<T>(groups: Seq<EventAcc<T>>, now: nat) -> Seq<EventAcc<T>>
    decreases groups.len(),
{
    if groups.len() > 0 && groups[0].acc is None && groups[0].ready_time <= now {
        skip_lost_ready(groups.drop_first(), now)
    } else {
        groups
    }
}

/// The first group that is not passed over for having lost its events has events.
pub proof fn lemma_skip_lost_front<T>(groups: Seq<EventAcc<T>>)
    ensures
        skip_lost(groups).len() > 0 ==> skip_lost(groups)[0].acc is Some,
    decreases groups.len(),
{
    if groups.len() > 0 && groups[0].acc is None {
        lemma_skip_lost_front(groups.drop_first());
    }
}

/// The first group that is not passed over for being ready and having lost its events is not ready
/// or has events.
pub proof fn lemma_skip_lost_ready_front<T>(groups: Seq<EventAcc<T>>, now: nat)
    ensures
        ({
            let kept = skip_lost_ready(groups, now);
            kept.len() > 0 ==> kept[0].acc is Some || kept[0].ready_time > now
        }),
    decreases groups.len(),
{
    if groups.len() > 0 && groups[0].acc is None && groups[0].ready_time <= now {
        lemma_skip_lost_ready_front(groups.drop_first(), now);
    }
}

/// Any group becomes ready at least `debounce_time` after every group in front of it.
pub open spec fn spaced<T>(groups: Seq<EventAcc<T>>, debounce_time: nat) -> bool {
    forall|i: int, j: int|
        0 <= i < j < groups.len() ==> #[trigger] groups[i].ready_time + debounce_time
            <= #[trigger] groups[j].ready_time
}

/// `VecDeque::back_mut` hands out the last item of the queue for mutation, if the queue has one.
/// Every other item stays as it is.
#[verifier::external_body]
fn back_mut<T>(queue: &mut VecDeque<T>) -> (last: Option<&mut T>)
    ensures
        match last {
            Some(item) => {
                &&& old(queue)@.len() > 0
                &&& *item == old(queue)@.last()
                &&& final(queue)@ == old(queue)@.drop_last().push(*final(item))
            },
            None => old(queue)@.len() == 0 && final(queue)@ == old(queue)@,
        },
{
    queue.back_mut()
}

/// The accumulators which have not been received yet, oldest first.
pub struct EventAccQueue<T> {
    inner: VecDeque<EventAcc<T>>,
}

impl<T> View for EventAccQueue<T> {
    type V = Seq<EventAcc<T>>;

    closed spec fn view(&self) -> Seq<EventAcc<T>> {
        self.inner@
    }
}

impl<T> EventAccQueue<T> {
    /// Makes a queue which holds nothing.
    pub fn new() -> (queue: Self)
        ensures
            queue@ == Seq::<EventAcc<T>>::empty(),
            forall|debounce_time: nat| #[trigger] spaced(queue@, debounce_time),
    {
        Self { inner: VecDeque::new() }
    }

    /// Whether the queue holds nothing.
    pub fn is_empty(&self) -> (empty: bool)
        ensures
            empty == (self@.len() == 0),
    {
        self.inner.len() == 0
    }

    /// Shows the oldest accumulator.
    pub fn peek_oldest(&self) -> (oldest: Option<&EventAcc<T>>)
        ensures
            match oldest {
                Some(acc) => self@.len() > 0 && *acc == self@[0],
                None => self@.len() == 0,
            },
    {
        if self.inner.len() == 0 {
            None
        } else {
            Some(&self.inner[0])
        }
    }

    /// Takes the oldest accumulator out of the queue.
    pub fn pop_oldest(&mut self) -> (oldest: Option<EventAcc<T>>)
        ensures
            match oldest {
                Some(acc) => {
                    &&& old(self)@.len() > 0
                    &&& acc == old(self)@[0]
                    &&& final(self)@ == old(self)@.drop_first()
                },
                None => old(self)@.len() == 0 && final(self)@ == old(self)@,
            },
            forall|debounce_time: nat| #[trigger]
                spaced(old(self)@, debounce_time) ==> spaced(final(self)@, debounce_time),
    {
        self.inner.pop_front()
    }

    /// Takes the oldest events out of the queue, whether they are ready or not. Accumulators which
    /// have lost their events are thrown away.
    pub fn pop_oldest_acc_discard_none(&mut self) -> (oldest: Option<T>)
        ensures
            ({
                let kept = skip_lost(old(self)@);
                match oldest {
                    Some(acc) => {
                        &&& kept.len() > 0
                        &&& kept[0].acc == Some(acc)
                        &&& final(self)@ == kept.drop_first()
                    },
                    None => kept.len() == 0 && final(self)@ == kept,
                }
            }),
            forall|debounce_time: nat| #[trigger]
                spaced(old(self)@, debounce_time) ==> spaced(final(self)@, debounce_time),
    {
        loop
            invariant
                skip_lost(self@) == skip_lost(old(self)@),
                forall|debounce_time: nat| #[trigger]
                    spaced(old(self)@, debounce_time) ==> spaced(self@, debounce_time),
            decreases self@.len(),
        {
            match self.pop_oldest() {
                Some(event) => {
                    if let Some(acc) = event.into_acc() {
                        return Some(acc);
                    }
                },
                None => return None,
            }
        }
    }

    /// Adds a raw event which was sent at the time `now`: to the last accumulator while that is not
    /// ready yet, and otherwise to a new accumulator, which will be ready once `debounce_time` has
    /// passed.
    pub fn push_latest<R, F>(
        &mut self,
        raw_event: R,
        f: F,
        now: u128,
        debounce_time: u128,
    ) -> (outcome: PushOutcome) where F: FnOnce(Option<T>, R) -> T
        requires
            f.requires((joined_so_far(old(self)@, now as nat), raw_event)),
            !joins_last(old(self)@, now as nat) ==> now + debounce_time <= u128::MAX,
        ensures
            pushes(
                old(self)@,
                final(self)@,
                raw_event,
                fold_model(f),
                now as nat,
                debounce_time as nat,
            ),
            outcome == push_outcome(old(self)@, now as nat),
            spaced(old(self)@, debounce_time as nat) ==> spaced(
                final(self)@,
                debounce_time as nat,
            ),
    {
        if let Some(event) = back_mut(&mut self.inner) {
            if event.ready_time > now {
                event.fold(raw_event, f);
                assert(self@.drop_last() == old(self)@.drop_last());
                return PushOutcome::NoNewAcc;
            }
        }
        let ready_time: u128 = now + debounce_time;
        let event = EventAcc::new_from_fold(raw_event, f, ready_time);
        self.inner.push_back(event);
        assert(self@.drop_last() == old(self)@);
        PushOutcome::NewAcc
    }
}

} // verus!

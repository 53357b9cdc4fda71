//! The parts of the standard library's synchronisation that the debouncer rests on.
//!
//! What a mutex protects may change whenever the mutex is not held, so nothing is claimed here of
//! the value that is found under it. What can be followed is where a value comes from and where it
//! goes: that the mutex handed it out, and what was left in its place when the mutex was let go
//! ([`Monitor::turns`]). Functions which hold the mutex leave every decision to
//! [`DebouncerState`](crate::state::DebouncerState), whose contracts hold for any value found.

use crate::channel::pass::Pass;
use std::ops::Deref;
use std::sync::{Condvar, Mutex, MutexGuard};
use std::time::Duration;
use vstd::prelude::*;

verus! {

/// A mutual exclusion lock around a value.
#[verifier::external_type_specification]
#[verifier::external_body]
#[verifier::reject_recursive_types(T)]
pub struct ExMutex<T: ?Sized>(Mutex<T>);

/// Proof that a mutex is held, and the way to the value that it protects.
#[verifier::external_type_specification]
#[verifier::external_body]
#[verifier::reject_recursive_types(T)]
pub struct ExMutexGuard<'a, T: ?Sized + 'a>(MutexGuard<'a, T>);

/// A condition on which threads wait until another thread notifies them.
#[verifier::external_type_specification]
#[verifier::external_body]
pub struct ExCondvar(Condvar);

/// `Mutex::new` makes a mutex, which is not held, around a value.
pub assume_specification<T>[ Mutex::<T>::new ](value: T) -> (mutex: Mutex<T>)
;

/// `Condvar::new` makes a condition on which nobody waits.
pub assume_specification[ Condvar::new ]() -> (condvar: Condvar)
;

/// `Condvar::notify_one` wakes up one of the threads which wait on the condition, if there are any.
pub assume_specification[ Condvar::notify_one ](condvar: &Condvar)
;

/// `Condvar::notify_all` wakes up all the threads which wait on the condition.
#[verifier::external_body]
fn notify_all(condvar: &Condvar)
    opens_invariants none
    no_unwind
{
    condvar.notify_all()
}

/// `Mutex::lock` waits until the mutex is free and takes hold of it. It reports an error if another
/// thread panicked while it held the mutex; the error holds the guard all the same, which
/// `into_inner` takes out. A thread which already holds the mutex must not lock it again: what
/// happens then is left open by the standard library, and it is not ruled out here.
#[verifier::external_body]
fn acquire<T>(mutex: &Mutex<T>) -> (guard: MutexGuard<'_, T>)
    opens_invariants none
    no_unwind
{
    match mutex.lock() {
        Ok(guard) => guard,
        Err(poisoned) => poisoned.into_inner(),
    }
}

/// `drop` on a guard lets go of the mutex and leaves under it what the guard holds.
#[verifier::external_body]
fn release<T>(guard: MutexGuard<'_, T>)
    opens_invariants none
    no_unwind
{
    drop(guard)
}

/// `guard` is a guard of `mutex`, whatever may have been written through it.
pub closed spec fn guards<'a, T>(mutex: &'a Mutex<T>, guard: MutexGuard<'a, T>) -> bool {
    call_ensures(acquire::<T>, (mutex,), guard)
}

/// Taking hold of `mutex` can hand out `guard`, with what it holds before anything is written
/// through it.
pub closed spec fn hands_out<'a, T>(mutex: &'a Mutex<T>, guard: MutexGuard<'a, T>) -> bool {
    call_ensures(lock::<T>, (mutex,), guard)
}

/// Dereferencing `guard` can give `value`.
pub open spec fn holds<G: Deref>(guard: G, value: G::Target) -> bool where G::Target: Sized {
    call_ensures(G::deref, (&guard,), &value)
}

/// Takes hold of a mutex, whether or not a thread has panicked while it held the mutex.
fn lock<T>(mutex: &Mutex<T>) -> (guard: MutexGuard<'_, T>)
    ensures
        guards(mutex, guard),
    opens_invariants none
    no_unwind
{
    acquire(mutex)
}

/// `MutexGuard::deref_mut` gives access to the value that the held mutex protects. The value is the
/// one that dereferencing the guard gives, before any change to it and after; and the guard stays a
/// guard of its mutex.
#[verifier::external_body]
fn protected<'a, 'b, T>(guard: &'a mut MutexGuard<'b, T>) -> (value: &'a mut T)
    ensures
        holds(*old(guard), *value),
        holds(*final(guard), *final(value)),
        forall|mutex: &'b Mutex<T>| #[trigger]
            guards(mutex, *old(guard)) ==> guards(mutex, *final(guard)),
    opens_invariants none
    no_unwind
{
    &mut **guard
}

/// One hold of a mutex, from when the mutex hands out a guard until it is let go or waited with. It
/// remembers the guard as it was handed out.
#[verifier::reject_recursive_types(T)]
pub struct Hold<'a, T> {
    guard: MutexGuard<'a, T>,
    found: Ghost<MutexGuard<'a, T>>,
}

impl<'a, T> Hold<'a, T> {
    /// The guard as it was handed out.
    pub closed spec fn found(self) -> MutexGuard<'a, T> {
        self.found@
    }

    /// The guard as it is now.
    pub closed spec fn guard(self) -> MutexGuard<'a, T> {
        self.guard
    }

    /// Gives access to the value that the mutex protects.
    pub(crate) fn value(&mut self) -> (value: &mut T)
        ensures
            holds(old(self).guard(), *value),
            holds(final(self).guard(), *final(value)),
            final(self).found() == old(self).found(),
            forall|mutex: &'a Mutex<T>| #[trigger]
                guards(mutex, old(self).guard()) ==> guards(mutex, final(self).guard()),
        opens_invariants none
        no_unwind
    {
        protected(&mut self.guard)
    }
}

/// Starts a hold with a guard that was handed out.
fn start<'a, T>(guard: MutexGuard<'a, T>) -> (hold: Hold<'a, T>)
    ensures
        hold.found() == guard,
        hold.guard() == guard,
    opens_invariants none
    no_unwind
{
    Hold { found: Ghost(guard), guard }
}

/// Ends a hold by letting go of the mutex.
fn finish<T>(hold: Hold<'_, T>)
    ensures
        call_ensures(release::<T>, (hold.guard(),), ()),
    opens_invariants none
    no_unwind
{
    release(hold.guard)
}

/// A value under a mutex, with the two conditions on which those who use the value wait. The
/// conditions are used with this mutex only.
#[verifier::reject_recursive_types(T)]
pub struct Monitor<T> {
    mutex: Mutex<T>,
    queue_wait_cvar: Condvar,
    event_ready_wait_cvar: Condvar,
}

impl<T> Monitor<T> {
    /// The monitor can have been made around `value`.
    pub closed spec fn made_around(self, value: T) -> bool {
        call_ensures(Mutex::<T>::new, (value,), self.mutex)
    }

    /// The mutex under which the value is.
    pub closed spec fn mutex(self) -> Mutex<T> {
        self.mutex
    }

    /// The condition on which those wait who wait for the queue to be filled.
    pub closed spec fn queue_condition(self) -> Condvar {
        self.queue_wait_cvar
    }

    /// The hold is one of this mutex.
    pub open spec fn held_by(self, hold: Hold<'_, T>) -> bool {
        guards(&self.mutex(), hold.guard())
    }

    /// Taking hold of the mutex can hand out `guard`, with what it holds before anything is written
    /// through it.
    pub closed spec fn hands_out(self, guard: MutexGuard<'_, T>) -> bool {
        hands_out(&self.mutex, guard)
    }

    /// Using up a pass can hand out `guard`. Waiting uses up none.
    pub closed spec fn enters(self, guard: MutexGuard<'_, T>) -> bool {
        exists|pass: Pass, hold: Hold<'_, T>| #[trigger]
            call_ensures(Monitor::<T>::enter, (&self, pass), hold) && hold.found() == guard
    }

    /// The hold can end by letting go of the mutex, which leaves under the mutex what the guard
    /// holds.
    pub closed spec fn lets_go(self, hold: Hold<'_, T>) -> bool {
        guards(&self.mutex, hold.guard()) && call_ensures(finish::<T>, (hold,), ())
    }

    /// The hold can end by waiting for the queue to be filled, after which the guard `found` is
    /// handed out.
    pub closed spec fn waits_for_queue(self, hold: Hold<'_, T>, found: MutexGuard<'_, T>) -> bool {
        exists|next: Hold<'_, T>| #[trigger]
            call_ensures(Monitor::<T>::pause, (&self, &self.queue_wait_cvar, hold), next)
                && next.found() == found
    }

    /// The hold can end by waiting no longer than `timeout` for an event to be ready, after which the
    /// guard `found` is handed out.
    pub closed spec fn waits_for_event(
        self,
        hold: Hold<'_, T>,
        timeout: Duration,
        found: MutexGuard<'_, T>,
    ) -> bool {
        exists|next: Hold<'_, T>| #[trigger]
            call_ensures(
                Monitor::<T>::pause_timeout,
                (&self, &self.event_ready_wait_cvar, hold, timeout),
                next,
            ) && next.found() == found
    }

    /// The mutex handed out the value `before` for this hold, whose guard holds `after` at the end.
    pub open spec fn spans(self, hold: Hold<'_, T>, before: T, after: T) -> bool {
        &&& self.hands_out(hold.found())
        &&& holds(hold.found(), before)
        &&& holds(hold.guard(), after)
    }

    /// In one hold of the mutex, the value `before` can be found under it and the value `after` left
    /// under it when the mutex is let go.
    pub open spec fn ends(self, before: T, after: T) -> bool {
        exists|hold: Hold<'_, T>| #[trigger] self.lets_go(hold) && self.spans(hold, before, after)
    }

    /// In one hold of the mutex, for which a pass is used up, the value `before` can be found under it
    /// and the value `after` left under it when the mutex is let go.
    pub open spec fn turns(self, before: T, after: T) -> bool {
        exists|hold: Hold<'_, T>|
            {
                &&& #[trigger] self.lets_go(hold)
                &&& self.enters(hold.found())
                &&& self.spans(hold, before, after)
            }
    }

    /// In one hold of the mutex, the value `before` can be found under it and the value `after` left
    /// under it by waiting.
    pub open spec fn pauses(self, before: T, after: T) -> bool {
        ||| exists|hold: Hold<'_, T>, found: MutexGuard<'_, T>| #[trigger]
            self.waits_for_queue(hold, found) && self.spans(hold, before, after)
        ||| exists|hold: Hold<'_, T>, timeout: Duration, found: MutexGuard<'_, T>| #[trigger]
            self.waits_for_event(hold, timeout, found) && self.spans(hold, before, after)
    }

    /// One of those who wait for the queue to be filled is woken up.
    pub closed spec fn wakes_one(self) -> bool {
        call_ensures(Condvar::notify_one, (&self.queue_wait_cvar,), ())
    }

    /// All those who wait, for whatever they wait, are woken up.
    pub closed spec fn wakes_all(self) -> bool {
        &&& call_ensures(notify_all, (&self.event_ready_wait_cvar,), ())
        &&& call_ensures(notify_all, (&self.queue_wait_cvar,), ())
    }

    /// `condvar` is one of the two conditions of this monitor.
    spec fn owns(self, condvar: Condvar) -> bool {
        condvar == self.queue_wait_cvar || condvar == self.event_ready_wait_cvar
    }

    /// Makes a monitor around a value.
    pub(crate) fn new(value: T) -> (monitor: Self)
        ensures
            monitor.made_around(value),
    {
        Self {
            mutex: Mutex::new(value),
            queue_wait_cvar: Condvar::new(),
            event_ready_wait_cvar: Condvar::new(),
        }
    }

    /// Uses up a pass to start a hold.
    fn enter(&self, _pass: Pass) -> (hold: Hold<'_, T>)
        ensures
            self.held_by(hold),
            self.hands_out(hold.found()),
            hold.guard() == hold.found(),
        opens_invariants none
        no_unwind
    {
        start(lock(&self.mutex))
    }

    /// Takes hold of the mutex, whether or not a thread has panicked while it held the mutex. The pass
    /// is used up.
    pub(crate) fn lock(&self, pass: Pass) -> (hold: Hold<'_, T>)
        ensures
            self.held_by(hold),
            self.enters(hold.found()),
            self.hands_out(hold.found()),
            hold.guard() == hold.found(),
        opens_invariants none
        no_unwind
    {
        self.enter(pass)
    }

    /// Lets go of the mutex.
    pub(crate) fn unlock(&self, hold: Hold<'_, T>)
        requires
            self.held_by(hold),
        ensures
            self.lets_go(hold),
        opens_invariants none
        no_unwind
    {
        finish(hold)
    }

    /// `Condvar::wait` lets go of the mutex, waits until the condition is notified, and takes hold of
    /// the mutex again. It may also return without having been notified. The guard comes back even
    /// if another thread panicked meanwhile, as it does from [`Monitor::lock`]. Nothing is claimed of
    /// the value that is found under the mutex then. A condition which is used with more than one
    /// mutex may panic; the conditions of a monitor are used with its own mutex only.
    #[verifier::external_body]
    fn wait<'a>(&'a self, condvar: &Condvar, guard: MutexGuard<'a, T>) -> (found: MutexGuard<'a, T>)
        requires
            self.owns(*condvar),
            guards(&self.mutex(), guard),
        ensures
            guards(&self.mutex(), found),
            self.hands_out(found),
    {
        match condvar.wait(guard) {
            Ok(guard) => guard,
            Err(poisoned) => poisoned.into_inner(),
        }
    }

    /// `Condvar::wait_timeout` does as [`Monitor::wait`] does, but waits no longer than the given
    /// time.
    #[verifier::external_body]
    fn wait_timeout<'a>(
        &'a self,
        condvar: &Condvar,
        guard: MutexGuard<'a, T>,
        timeout: Duration,
    ) -> (found: MutexGuard<'a, T>)
        requires
            self.owns(*condvar),
            guards(&self.mutex(), guard),
        ensures
            guards(&self.mutex(), found),
            self.hands_out(found),
    {
        match condvar.wait_timeout(guard, timeout) {
            Ok((guard, _)) => guard,
            Err(poisoned) => poisoned.into_inner().0,
        }
    }

    /// Ends a hold by waiting on a condition, and starts the next.
    fn pause<'a>(&'a self, condvar: &Condvar, hold: Hold<'a, T>) -> (next: Hold<'a, T>)
        requires
            self.owns(*condvar),
            self.held_by(hold),
        ensures
            self.held_by(next),
            self.hands_out(next.found()),
            next.guard() == next.found(),
            call_ensures(Monitor::<T>::wait, (self, condvar, hold.guard()), next.found()),
    {
        start(self.wait(condvar, hold.guard))
    }

    /// Ends a hold by waiting on a condition for no longer than the given time, and starts the next.
    fn pause_timeout<'a>(
        &'a self,
        condvar: &Condvar,
        hold: Hold<'a, T>,
        timeout: Duration,
    ) -> (next: Hold<'a, T>)
        requires
            self.owns(*condvar),
            self.held_by(hold),
        ensures
            self.held_by(next),
            self.hands_out(next.found()),
            next.guard() == next.found(),
            call_ensures(
                Monitor::<T>::wait_timeout,
                (self, condvar, hold.guard(), timeout),
                next.found(),
            ),
    {
        start(self.wait_timeout(condvar, hold.guard, timeout))
    }

    /// Waits for the queue to be filled. The wait may end for no reason.
    pub(crate) fn wait_for_queue<'a>(&'a self, hold: Hold<'a, T>) -> (next: Hold<'a, T>)
        requires
            self.held_by(hold),
        ensures
            self.held_by(next),
            self.hands_out(next.found()),
            next.guard() == next.found(),
            self.waits_for_queue(hold, next.found()),
    {
        self.pause(&self.queue_wait_cvar, hold)
    }

    /// Waits for an event to be ready, and no longer than the given time. The wait may end for no
    /// reason.
    pub(crate) fn wait_for_event<'a>(&'a self, hold: Hold<'a, T>, timeout: Duration) -> (next: Hold<
        'a,
        T,
    >)
        requires
            self.held_by(hold),
        ensures
            self.held_by(next),
            self.hands_out(next.found()),
            next.guard() == next.found(),
            self.waits_for_event(hold, timeout, next.found()),
    {
        self.pause_timeout(&self.event_ready_wait_cvar, hold, timeout)
    }

    /// Wakes up one of those who wait for the queue to be filled.
    pub(crate) fn wake_one(&self)
        ensures
            self.wakes_one(),
    {
        self.queue_wait_cvar.notify_one();
    }

    /// Wakes up all those who wait, for whatever they wait.
    pub(crate) fn wake_all(&self)
        ensures
            self.wakes_all(),
        opens_invariants none
        no_unwind
    {
        notify_all(&self.event_ready_wait_cvar);
        notify_all(&self.queue_wait_cvar);
    }
}

/// Whoever is said to be woken up is notified through the condition on which those wait who are said to
/// wait for it, and they wait no longer than they are said to.
proof fn law_wakers_reach_waiters<T>(
    monitor: Monitor<T>,
    hold: Hold<'_, T>,
    timeout: Duration,
    found: MutexGuard<'_, T>,
)
    ensures
        monitor.waits_for_queue(hold, found) ==> call_ensures(
            Monitor::<T>::wait,
            (&monitor, &monitor.queue_wait_cvar, hold.guard()),
            found,
        ),
        monitor.waits_for_event(hold, timeout, found) ==> call_ensures(
            Monitor::<T>::wait_timeout,
            (&monitor, &monitor.event_ready_wait_cvar, hold.guard(), timeout),
            found,
        ),
        monitor.wakes_one() ==> call_ensures(Condvar::notify_one, (&monitor.queue_wait_cvar,), ()),
        monitor.wakes_all() ==> call_ensures(notify_all, (&monitor.queue_wait_cvar,), ())
            && call_ensures(notify_all, (&monitor.event_ready_wait_cvar,), ()),
{
}

/// What is found and what is left in one turn is found and left through one guard, which was handed
/// out for a pass by locking the mutex and which was dropped at the end.
proof fn law_a_turn_is_one_hold<T>(monitor: Monitor<T>, before: T, after: T)
    requires
        monitor.turns(before, after),
    ensures
        exists|pass: Pass, entry: Hold<'_, T>, hold: Hold<'_, T>|
            {
                &&& #[trigger] call_ensures(Monitor::<T>::enter, (&monitor, pass), entry)
                &&& entry.found() == hold.found()
                &&& call_ensures(lock::<T>, (&monitor.mutex,), hold.found())
                &&& holds(hold.found(), before)
                &&& guards(&monitor.mutex, hold.guard())
                &&& holds(hold.guard(), after)
                &&& #[trigger] call_ensures(finish::<T>, (hold,), ())
                &&& call_ensures(release::<T>, (hold.guard(),), ())
            },
{
    let hold = choose|hold: Hold<'_, T>|
        {
            &&& #[trigger] monitor.lets_go(hold)
            &&& monitor.enters(hold.found())
            &&& monitor.spans(hold, before, after)
        };
    let (pass, entry) = choose|pass: Pass, entry: Hold<'_, T>| #[trigger]
        call_ensures(Monitor::<T>::enter, (&monitor, pass), entry) && entry.found()
            == hold.found();
}

/// Where one is woken up, the condition on which those wait who wait for the queue to be filled is
/// notified.
pub proof fn law_waking_notifies_the_queue_condition<T>(monitor: Monitor<T>)
    requires
        monitor.wakes_one(),
    ensures
        call_ensures(Condvar::notify_one, (&monitor.queue_condition(),), ()),
{
}

} // verus!

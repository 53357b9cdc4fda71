//! The rules of a debouncer, on times that the tests make up.

use std::time::Duration;
use treacle::fold::{fold_unit, fold_vec_push};
use treacle::queue::{EventAcc, EventAccQueue, PushOutcome};
use treacle::state::{DebouncerState, PopStep};
use treacle::time::{duration_of, nanos_of};

const MILLIS: u128 = 1_000_000;

fn push(state: &mut DebouncerState<Vec<u8>>, event: u8, now: u128) -> PushOutcome {
    match state.push(event, fold_vec_push::<u8>, now, 100) {
        Ok(outcome) => outcome,
        Err(_) => panic!("no receiver"),
    }
}

#[test]
fn debouncing_on_made_up_times() {
    let mut state: DebouncerState<Vec<u8>> = DebouncerState::new(1, 1);
    let mut now: u128 = 0;

    for i in 0..3u8 {
        for j in 0..10u8 {
            let pushed = state.push(i * 10 + j, fold_vec_push::<u8>, now, 50 * MILLIS);
            assert!(pushed.is_ok());
            now += 4 * MILLIS;
        }

        now += 20 * MILLIS;
    }

    assert_eq!(
        state.try_pop(now).unwrap().unwrap(),
        &[0, 1, 2, 3, 4, 5, 6, 7, 8, 9]
    );
    assert_eq!(
        state.try_pop(now).unwrap().unwrap(),
        &[10, 11, 12, 13, 14, 15, 16, 17, 18, 19]
    );
    assert_eq!(
        state.try_pop(now).unwrap().unwrap(),
        &[20, 21, 22, 23, 24, 25, 26, 27, 28, 29]
    );
    assert_eq!(state.try_pop(now).unwrap(), None);
}

#[test]
fn a_window_is_as_long_as_the_debounce_time() {
    let mut state = DebouncerState::new(1, 1);
    assert_eq!(push(&mut state, 1, 1000), PushOutcome::NewAcc);
    assert_eq!(push(&mut state, 2, 1099), PushOutcome::NoNewAcc);
    // Joining does not make the window longer.
    assert_eq!(push(&mut state, 3, 1100), PushOutcome::NewAcc);
    assert_eq!(push(&mut state, 4, 1199), PushOutcome::NoNewAcc);
    // An event which was late to take the lock joins the group before it.
    assert_eq!(push(&mut state, 5, 1050), PushOutcome::NoNewAcc);

    assert_eq!(state.try_pop(1099).unwrap(), None);
    assert_eq!(state.try_pop(1100).unwrap().unwrap(), &[1, 2]);
    assert_eq!(state.try_pop(1199).unwrap(), None);
    assert_eq!(state.try_pop(1200).unwrap().unwrap(), &[3, 4, 5]);
}

#[test]
fn steps_of_a_waiting_receiver() {
    let mut state = DebouncerState::new(1, 1);
    assert!(matches!(state.pop_step(5), PopStep::WaitForPush));
    push(&mut state, 7, 10);
    assert!(matches!(state.pop_step(10), PopStep::WaitForReady(100)));
    assert!(matches!(state.pop_step(109), PopStep::WaitForReady(1)));
    assert!(matches!(state.pop_step(110), PopStep::Event(event) if event == [7]));
    assert!(matches!(state.pop_step(110), PopStep::WaitForPush));
    push(&mut state, 8, 200);
    assert_eq!(state.remove_tx(), 0);
    assert!(matches!(state.pop_step(200), PopStep::Event(event) if event == [8]));
    assert!(matches!(state.pop_step(200), PopStep::Closed));
    assert!(matches!(state.pop_step(500), PopStep::Closed));
}

#[test]
fn without_receivers_events_are_refused() {
    let mut state: DebouncerState<Vec<u8>> = DebouncerState::new(1, 2);
    assert!(!state.has_no_rxs());
    assert_eq!(state.remove_rx(), 1);
    push(&mut state, 1, 0);
    assert_eq!(state.remove_rx(), 0);
    assert!(state.has_no_rxs());
    assert_eq!(
        state.push(2, fold_vec_push::<u8>, 1, 100).unwrap_err().0,
        2
    );
    assert!(state.add_rx().is_ok());
    assert_eq!(state.try_pop(100).unwrap().unwrap(), &[1]);
}

#[test]
fn a_closed_debouncer_drains_in_order() {
    let mut state = DebouncerState::new(1, 1);
    push(&mut state, 1, 0);
    push(&mut state, 2, 100);
    push(&mut state, 3, 200);
    state.remove_tx();
    assert_eq!(state.try_pop(0).unwrap().unwrap(), &[1]);
    assert_eq!(state.try_pop(0).unwrap().unwrap(), &[2]);
    assert_eq!(state.try_pop(0).unwrap().unwrap(), &[3]);
    assert!(state.try_pop(0).is_err());
    assert!(state.try_pop(1000).is_err());
}

#[test]
fn counts_of_senders_and_receivers() {
    let mut state: DebouncerState<()> = DebouncerState::new(1, 1);
    assert!(state.add_tx().is_ok());
    assert_eq!(state.remove_tx(), 1);
    assert_eq!(state.remove_tx(), 0);
    assert_eq!(state.remove_tx(), 0);
    assert_eq!(state.remove_rx(), 0);
    assert_eq!(state.remove_rx(), 0);

    let mut full: DebouncerState<()> = DebouncerState::new(usize::MAX, usize::MAX);
    assert!(full.add_tx().is_err());
    assert!(full.add_rx().is_err());
    assert_eq!(full.remove_tx(), usize::MAX - 1);
    assert_eq!(full.remove_rx(), usize::MAX - 1);
    assert!(full.add_tx().is_ok());
    assert!(full.add_rx().is_ok());
}

#[test]
fn one_accumulator() {
    let mut acc = EventAcc::new_from_fold(1u8, fold_vec_push::<u8>, 30);
    acc.fold(2, fold_vec_push::<u8>);
    assert_eq!(acc.ready_time, 30);
    assert_eq!(acc.into_acc().unwrap(), &[1, 2]);

    let mut lost: EventAcc<Vec<u8>> = EventAcc { acc: None, ready_time: 5 };
    lost.fold(3, fold_vec_push::<u8>);
    assert_eq!(lost.into_acc().unwrap(), &[3]);
}

#[test]
fn the_queue_is_first_in_first_out() {
    let mut queue: EventAccQueue<Vec<u8>> = EventAccQueue::new();
    assert!(queue.is_empty());
    assert!(queue.peek_oldest().is_none());
    assert!(queue.pop_oldest().is_none());
    assert_eq!(queue.pop_oldest_acc_discard_none(), None);

    assert_eq!(
        queue.push_latest(1, fold_vec_push::<u8>, 0, 10),
        PushOutcome::NewAcc
    );
    assert_eq!(
        queue.push_latest(2, fold_vec_push::<u8>, 9, 10),
        PushOutcome::NoNewAcc
    );
    assert_eq!(
        queue.push_latest(3, fold_vec_push::<u8>, 10, 10),
        PushOutcome::NewAcc
    );
    assert!(!queue.is_empty());
    assert_eq!(queue.peek_oldest().unwrap().ready_time, 10);
    assert_eq!(queue.pop_oldest().unwrap().into_acc().unwrap(), &[1, 2]);
    assert_eq!(queue.peek_oldest().unwrap().ready_time, 20);
    assert_eq!(queue.pop_oldest_acc_discard_none().unwrap(), &[3]);
    assert!(queue.is_empty());
}

#[test]
fn prewritten_folds() {
    assert_eq!(fold_vec_push(None, 4), vec![4]);
    assert_eq!(fold_vec_push(Some(vec![4]), 5), vec![4, 5]);
    assert_eq!(fold_unit(None, 4), ());
    assert_eq!(fold_unit(Some(()), 5), ());
}

#[test]
fn durations_in_nanoseconds() {
    assert_eq!(nanos_of(&Duration::new(2, 5)), 2_000_000_005);
    assert_eq!(nanos_of(&Duration::from_millis(100)), 100 * MILLIS);
    assert_eq!(duration_of(2_000_000_005), Duration::new(2, 5));
    assert_eq!(duration_of(0), Duration::ZERO);
    assert_eq!(duration_of(nanos_of(&Duration::MAX)), Duration::MAX);
    assert_eq!(duration_of(nanos_of(&Duration::MAX) + 1), Duration::MAX);
    assert_eq!(duration_of(u128::MAX), Duration::MAX);
}

#[test]
fn documented_groups_of_vectors() {
    let mut state: DebouncerState<Vec<u8>> = DebouncerState::new(1, 1);
    for (event, now) in [(10, 0), (20, 1), (30, 500), (40, 501), (50, 502)] {
        assert!(state
            .push(event, fold_vec_push::<u8>, now * MILLIS, 500 * MILLIS)
            .is_ok());
    }
    assert_eq!(state.try_pop(1000 * MILLIS).unwrap().unwrap(), &[10, 20]);
    assert_eq!(state.try_pop(1000 * MILLIS).unwrap().unwrap(), &[30, 40, 50]);

    for (event, now) in [(4, 2000), (5, 2000), (3, 2150), (2, 2151), (1, 2152)] {
        assert!(state
            .push(event, fold_vec_push::<u8>, now * MILLIS, 100 * MILLIS)
            .is_ok());
    }
    assert_eq!(state.try_pop(2100 * MILLIS).unwrap().unwrap(), &[4, 5]);
    assert_eq!(state.try_pop(2100 * MILLIS).unwrap(), None);
    assert_eq!(state.try_pop(2250 * MILLIS).unwrap().unwrap(), &[3, 2, 1]);
}

#[test]
fn documented_groups_of_flags() {
    let or = |acc: Option<u8>, raw_event: u8| acc.unwrap_or_default() | raw_event;
    let mut state: DebouncerState<u8> = DebouncerState::new(1, 1);
    for (event, now) in [
        (0b00001000, 0),
        (0b00000100, 0),
        (0b00000010, 0),
        (0b10000000, 500),
        (0b00100000, 500),
        (0b01000000, 1000),
        (0b00000001, 1000),
    ] {
        assert!(state.push(event, or, now * MILLIS, 500 * MILLIS).is_ok());
    }
    assert_eq!(state.try_pop(1000 * MILLIS).unwrap(), Some(0b00001110));
    assert_eq!(state.try_pop(1000 * MILLIS).unwrap(), Some(0b10100000));
    assert_eq!(state.try_pop(1000 * MILLIS).unwrap(), None);

    // There is still one last event left once the sender has gone.
    assert_eq!(state.remove_tx(), 0);
    assert_eq!(state.try_pop(1000 * MILLIS).unwrap(), Some(0b01000001));
    assert!(state.try_pop(1000 * MILLIS).is_err());
}

#[test]
fn receiving_in_between_does_not_change_groups() {
    let times: [u128; 7] = [0, 50, 99, 100, 250, 349, 350];
    let mut once: DebouncerState<Vec<u8>> = DebouncerState::new(1, 1);
    let mut often: DebouncerState<Vec<u8>> = DebouncerState::new(1, 1);
    let mut received_often: Vec<Vec<u8>> = Vec::new();

    for (i, now) in times.iter().enumerate() {
        let event = u8::try_from(i).unwrap();
        if let Some(events) = often.try_pop(*now).unwrap() {
            received_often.push(events);
        }
        assert_eq!(push(&mut once, event, *now), push(&mut often, event, *now));
    }

    let mut received_once: Vec<Vec<u8>> = Vec::new();
    while let Some(events) = once.try_pop(1000).unwrap() {
        received_once.push(events);
    }
    while let Some(events) = often.try_pop(1000).unwrap() {
        received_often.push(events);
    }
    assert_eq!(received_once, received_often);
    assert_eq!(
        received_once,
        vec![vec![0, 1, 2], vec![3], vec![4, 5], vec![6]]
    );
}

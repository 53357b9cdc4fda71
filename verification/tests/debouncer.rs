//! The two halves of a debouncer, on the real clock.

use std::error::Error;
use std::time::{Duration, Instant};
use treacle::fold::{fold_unit, fold_vec_push};
use treacle::{debouncer, DebouncerRx, DebouncerTx, ReceiveError, SendError};

fn pass_time(duration: Duration) {
    let start = Instant::now();
    while start.elapsed() < duration {}
}

#[test]
fn test_debounce() {
    let (tx, rx) = debouncer(Duration::from_millis(50), fold_vec_push::<u8>);

    for i in 0..3 {
        let start = Instant::now();

        for j in 0..10 {
            tx.send(i * 10 + j).unwrap();
            // Counted from the start, so that being held up once does not delay all that follows.
            while start.elapsed() < Duration::from_millis(4) * u32::from(j + 1) {}
        }

        pass_time(Duration::from_millis(20));
    }

    assert_eq!(rx.recv().unwrap(), &[0, 1, 2, 3, 4, 5, 6, 7, 8, 9]);
    assert_eq!(rx.recv().unwrap(), &[10, 11, 12, 13, 14, 15, 16, 17, 18, 19]);
    assert_eq!(rx.recv().unwrap(), &[20, 21, 22, 23, 24, 25, 26, 27, 28, 29]);
}

#[test]
fn test_debouncer_shutdown() {
    let (tx, rx) = debouncer(Duration::from_millis(100), fold_vec_push::<u8>);

    tx.send(1).unwrap();
    tx.send(2).unwrap();
    tx.send(3).unwrap();

    // Drop the tx, shutting down the debouncer.
    drop(tx);

    // Test that the events emitted just before the shutdown are not lost.
    assert_eq!(rx.recv().unwrap(), &[1, 2, 3]);
    assert!(rx.recv().is_err());
}

#[test]
fn test_multi_tx() {
    let (tx1, rx) = debouncer(Duration::from_millis(100), fold_vec_push::<u8>);

    let tx2 = tx1.clone();

    tx1.send(1).unwrap();
    tx2.send(2).unwrap();
    assert_eq!(rx.recv().unwrap(), &[1, 2]);

    drop(tx1);

    tx2.send(3).unwrap();
    tx2.send(4).unwrap();
    assert_eq!(rx.recv().unwrap(), &[3, 4]);

    let start_time = Instant::now();
    tx2.send(5).unwrap();
    tx2.send(6).unwrap();
    assert_eq!(rx.recv().unwrap(), &[5, 6]);
    assert!(Instant::now().duration_since(start_time) >= Duration::from_millis(100));

    tx2.send(7).unwrap();
    tx2.send(8).unwrap();
    drop(tx2);
    assert_eq!(rx.recv().unwrap(), &[7, 8]);
    assert!(rx.recv().is_err());
}

#[test]
fn test_multi_rx() {
    let (tx, rx1) = debouncer(Duration::from_millis(100), fold_vec_push::<u8>);

    let rx2 = rx1.clone();

    tx.send(1).unwrap();
    tx.send(2).unwrap();
    assert_eq!(rx1.recv().unwrap(), &[1, 2]);

    tx.send(3).unwrap();
    tx.send(4).unwrap();
    assert_eq!(rx2.recv().unwrap(), &[3, 4]);

    drop(rx1);

    tx.send(5).unwrap();
    tx.send(6).unwrap();
    assert_eq!(rx2.recv().unwrap(), &[5, 6]);

    drop(rx2);

    assert!(tx.send(7).is_err());
}

#[test]
fn sums_of_raw_events() {
    let (tx, rx) = debouncer(Duration::from_millis(100), |acc: Option<u64>, raw_event: u32| {
        acc.unwrap_or_default() + u64::from(raw_event)
    });

    tx.send(1).unwrap();
    tx.send(2).unwrap();
    assert_eq!(rx.recv().unwrap(), 3);

    tx.send(3).unwrap();
    tx.send(4).unwrap();
    tx.send(5).unwrap();
    assert_eq!(rx.recv().unwrap(), 12);

    drop(rx);
    assert_eq!(tx.send(6).unwrap_err().0, 6);
}

#[test]
fn trying_to_receive_does_not_wait() {
    let (tx, rx) = debouncer(Duration::from_millis(200), |acc: Option<u8>, raw_event: u8| {
        acc.unwrap_or_default() | raw_event
    });

    assert_eq!(rx.try_recv().unwrap(), None);
    tx.send(0b00001000).unwrap();
    tx.send(0b00000100).unwrap();
    tx.send(0b00000010).unwrap();
    assert_eq!(rx.try_recv().unwrap(), None);

    pass_time(Duration::from_millis(200));
    assert_eq!(rx.try_recv().unwrap(), Some(0b00001110));
    assert_eq!(rx.try_recv().unwrap(), None);

    tx.send(0b00010000).unwrap();
    drop(tx);
    assert_eq!(rx.try_recv().unwrap(), Some(0b00010000));
    assert!(rx.try_recv().is_err());
}

#[test]
fn receiving_waits_for_the_debounce_time() {
    let (tx, rx) = debouncer(Duration::from_millis(50), fold_unit::<u32>);

    let start_time = Instant::now();
    tx.send(4).unwrap();
    tx.send(5).unwrap();
    assert_eq!(rx.recv().unwrap(), ());
    assert!(start_time.elapsed() >= Duration::from_millis(50));

    tx.send(3).unwrap();
    assert_eq!(rx.recv().unwrap(), ());
    assert_eq!(rx.try_recv().unwrap(), None);
}

#[test]
fn no_debounce_time_means_no_grouping() {
    let (tx, rx) = debouncer(Duration::ZERO, fold_vec_push::<u8>);

    tx.send(1).unwrap();
    tx.send(2).unwrap();
    assert_eq!(rx.recv().unwrap(), &[1]);
    assert_eq!(rx.recv().unwrap(), &[2]);
}

#[test]
fn the_longest_debounce_time_keeps_one_group() {
    let (tx, rx) = debouncer(Duration::MAX, fold_vec_push::<u8>);

    tx.send(1).unwrap();
    tx.send(2).unwrap();
    assert_eq!(rx.try_recv().unwrap(), None);
    drop(tx);
    assert_eq!(rx.recv().unwrap(), &[1, 2]);
    assert!(rx.recv().is_err());
}

#[test]
fn only_the_last_halves_close_the_debouncer() {
    let (tx1, rx1): (DebouncerTx<u8, Vec<u8>, _>, DebouncerRx<Vec<u8>>) =
        debouncer(Duration::from_millis(50), fold_vec_push::<u8>);
    let tx2 = tx1.clone();
    drop(tx1.clone());
    drop(tx1);
    assert_eq!(rx1.try_recv().unwrap(), None);

    let rx2 = rx1.clone();
    drop(rx1.clone());
    drop(rx1);
    tx2.send(9).unwrap();
    drop(tx2);
    assert_eq!(rx2.recv().unwrap(), &[9]);
    assert_eq!(
        rx2.recv().unwrap_err().to_string(),
        "receiving from a closed debouncer"
    );
}

#[test]
fn a_refused_event_is_handed_back() {
    let (tx, rx) = debouncer(Duration::from_millis(50), fold_vec_push::<u8>);
    drop(rx);
    let error = tx.send(42).unwrap_err();
    assert_eq!(error.0, 42);
    assert_eq!(error.to_string(), "sending through a closed debouncer");
}

#[test]
fn two_debouncers_do_not_affect_each_other() {
    let (tx1, rx1) = debouncer(Duration::from_millis(50), fold_vec_push::<u8>);
    let (tx2, rx2) = debouncer(Duration::from_millis(50), fold_vec_push::<u8>);

    tx1.send(1).unwrap();
    tx2.send(2).unwrap();
    tx1.send(3).unwrap();
    drop(tx1);
    assert_eq!(rx1.recv().unwrap(), &[1, 3]);
    assert!(rx1.recv().is_err());

    assert_eq!(rx2.recv().unwrap(), &[2]);
    assert_eq!(rx2.try_recv().unwrap(), None);
    drop(rx1);
    tx2.send(4).unwrap();
    drop(tx2);
    assert_eq!(rx2.recv().unwrap(), &[4]);
    assert!(rx2.recv().is_err());
}

#[test]
fn vectors_hold_everything_until_the_debouncer_is_closed() {
    let (tx, rx) = debouncer(Duration::from_millis(20), fold_vec_push::<u8>);
    let mut received: Vec<u8> = Vec::new();

    for event in 0..30 {
        let sender = tx.clone();
        sender.send(event).unwrap();
        if event % 7 == 0 {
            pass_time(Duration::from_millis(5));
        }
        if let Some(events) = rx.clone().try_recv().unwrap() {
            assert!(!events.is_empty());
            received.extend(events);
        }
    }

    drop(tx);
    while let Ok(events) = rx.recv() {
        assert!(!events.is_empty());
        received.extend(events);
    }
    assert_eq!(received, (0..30).collect::<Vec<u8>>());
}

#[test]
fn errors_are_shown_without_the_event() {
    // The event need not be something that can be shown.
    struct Opaque;
    let error = SendError(Opaque);
    assert_eq!(format!("{:?}", error), "SendError { .. }");
    assert_eq!(format!("{:#?}", error), "SendError { .. }");
    assert_eq!(format!("{}", error), "sending through a closed debouncer");
    assert_eq!(format!("{:.7}|{:>36}", error, error), "sending|  sending through a closed debouncer");

    assert_eq!(format!("{:?}", ReceiveError), "ReceiveError");
    assert_eq!(format!("{}", ReceiveError), "receiving from a closed debouncer");

    let boxed: Box<dyn Error> = Box::new(ReceiveError);
    assert_eq!(boxed.to_string(), "receiving from a closed debouncer");
    let boxed: Box<dyn Error> = Box::new(SendError(1));
    assert!(boxed.source().is_none());
}

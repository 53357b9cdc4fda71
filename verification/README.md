# `treacle`

A generic event debouncer for Rust, verified with Verus, for grouping events which occur close
together in time into a single event.

```rust
let (tx, rx) = treacle::debouncer(Duration::from_millis(500), treacle::fold::fold_vec_push::<u32>);

tx.send(10).unwrap();
tx.send(20).unwrap();
thread::sleep(Duration::from_millis(500));
tx.send(30).unwrap();

assert_eq!(rx.recv().unwrap(), &[10, 20]);
assert_eq!(rx.recv().unwrap(), &[30]);
```

## Layout

- `src/queue.rs`: accumulators of raw events and the queue in which they wait.
- `src/state.rs`: the state which all senders and receivers share, and the rules of sending and
  receiving.
- `src/channel.rs`: `debouncer`, `DebouncerTx` and `DebouncerRx`, which apply the rules under a lock.
- `src/fold.rs`: pre-written fold functions.
- `src/laws.rs`: what holds over any number of calls, such as that no event is lost.
- `src/history.rs`: how calls on the halves make up the runs of which the laws speak.
- `src/sync.rs`, `src/time.rs`: what is relied on of the standard library's locks and clock.
- `app/`: an example.

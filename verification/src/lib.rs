//! A generic event debouncer, for grouping events which occur close together in time into a single
//! event.
//!
//! For example, you may have some templates which you want to reload whenever a template file
//! changes. However, if many small changes are made to the template files in quick succession, it
//! would be wasteful to reload the templates for every change; instead, a debouncer could be used to
//! group the changes that occur at a similar time into a single change, so the templates are only
//! reloaded once.
//!
//! A new debouncer can be created with the [`debouncer`] function, which returns the debouncer in
//! two halves: a tx (send) half and rx (receive) half. The tx sends raw un-debounced events to the
//! debouncer, and the rx receives the debounced events from the debouncer. Both halves can be cloned
//! to allow for multiple senders and receivers.
//!
//! The rules of the debouncer are in [`queue`] and [`state`]; each of their functions states exactly
//! what it does to the state that it is given, at the time that it is told. The halves in
//! [`channel`] apply the rules to the state that they share under the lock of a
//! [`Debouncer`](debouncer::Debouncer). What follows for any number of steps by those rules is proved
//! in [`laws`]; [`history`] makes up such steps from what the calls on the halves promise.

pub mod channel;
pub mod debouncer;
pub mod error;
pub mod fold;
pub mod history;
pub mod laws;
pub mod queue;
pub mod state;
pub mod sync;
pub mod time;

pub use channel::{debouncer, DebouncerRx, DebouncerTx};
pub use error::{CountOverflowError, ReceiveError, SendError};

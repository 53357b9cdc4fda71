//! The errors that the two halves of a debouncer report.

use vstd::prelude::*;

verus! {

/// Where and how a value is to be formatted. Nothing inside it is known here.
#[verifier::external_type_specification]
#[verifier::external_body]
pub struct ExFormatter<'a>(std::fmt::Formatter<'a>);

/// An error of what a formatter writes to.
#[verifier::external_type_specification]
#[verifier::external_body]
pub struct ExFmtError(std::fmt::Error);

/// `Formatter::write_str` writes the given text as it is. It fails if what it writes to fails, so
/// nothing is claimed of the result.
pub assume_specification<'a>[ std::fmt::Formatter::<'a>::write_str ](
    f: &mut std::fmt::Formatter<'a>,
    data: &str,
) -> (written: std::fmt::Result)
;

/// `Formatter::pad` writes the given text in the width and the precision that were asked for. It
/// fails if what it writes to fails, so nothing is claimed of the result.
pub assume_specification<'a>[ std::fmt::Formatter::<'a>::pad ](
    f: &mut std::fmt::Formatter<'a>,
    s: &str,
) -> (written: std::fmt::Result)
;

/// An error indicating that there are no more [`DebouncerRx`](crate::DebouncerRx)s left to
/// receive events. The raw event that could not be sent is held by the error so it is not lost.
pub struct SendError<T>(pub T);

impl<T> std::fmt::Debug for SendError<T> {
    fn fmt(&self, f: &mut std::fmt::Formatter<'_>) -> (written: std::fmt::Result)
        ensures
            exists|through: &mut std::fmt::Formatter<'_>|
                {
                    &&& *through == *old(f)
                    &&& *final(through) == *final(f)
                    &&& #[trigger] call_ensures(
                        std::fmt::Formatter::write_str,
                        (through, "SendError { .. }"),
                        written,
                    )
                },
    {
        f.write_str("SendError { .. }")
    }
}

impl<T> std::fmt::Display for SendError<T> {
    fn fmt(&self, f: &mut std::fmt::Formatter<'_>) -> (written: std::fmt::Result)
        ensures
            exists|through: &mut std::fmt::Formatter<'_>|
                {
                    &&& *through == *old(f)
                    &&& *final(through) == *final(f)
                    &&& #[trigger] call_ensures(
                        std::fmt::Formatter::pad,
                        (through, "sending through a closed debouncer"),
                        written,
                    )
                },
    {
        f.pad("sending through a closed debouncer")
    }
}

impl<T> std::error::Error for SendError<T> {

}

/// An error indicating that the debouncer has no more events left to receive, and there are no
/// more [`DebouncerTx`](crate::DebouncerTx)s left to send events.
#[derive(Debug)]
pub struct ReceiveError;

impl std::fmt::Display for ReceiveError {
    fn fmt(&self, f: &mut std::fmt::Formatter<'_>) -> (written: std::fmt::Result)
        ensures
            exists|through: &mut std::fmt::Formatter<'_>|
                {
                    &&& *through == *old(f)
                    &&& *final(through) == *final(f)
                    &&& #[trigger] call_ensures(
                        std::fmt::Formatter::pad,
                        (through, "receiving from a closed debouncer"),
                        written,
                    )
                },
    {
        f.pad("receiving from a closed debouncer")
    }
}

impl std::error::Error for ReceiveError {

}

/// An error indicating that a count of senders or receivers has reached the largest value that a
/// `usize` can hold.
#[derive(Debug)]
pub struct CountOverflowError;

} // verus!

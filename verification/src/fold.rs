//! Pre-written fold functions which can be passed to [`debouncer`](crate::debouncer) to specify
//! how raw events should be combined into a single debounced event.

use vstd::prelude::*;

verus! {

/// A fold function which combines events of type `T` into a `Vec<T>` by pushing them.
pub fn fold_vec_push<T>(acc: Option<Vec<T>>, e: T) -> (folded: Vec<T>)
    ensures
        folded@ == match acc {
            Some(events) => events@.push(e),
            None => seq![e],
        },
{
    let mut acc = acc.unwrap_or_default();
    acc.push(e);
    acc
}

/// A fold function which discards all raw event data. Useful when you are just interested in the
/// existence of events and not any data associated with them.
pub fn fold_unit<T>(_acc: Option<()>, _e: T) -> (folded: ())
    ensures
        folded == (),
{
}

} // verus!

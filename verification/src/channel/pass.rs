//! Passes to the lock of a debouncer.

use vstd::prelude::*;

verus! {

/// The right to take hold of the lock of a debouncer once. It is used up by doing so, and cannot be
/// copied. Only the calls on the halves are issued passes.
pub struct Pass {
    used_once: (),
}

impl Pass {
    pub(super) fn issue() -> Self
        opens_invariants none
        no_unwind
    {
        Pass { used_once: () }
    }
}

} // verus!

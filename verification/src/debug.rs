//! Work done only when debugging is on.

use vstd::prelude::*;

verus! {

/// Runs `func` when debugging is on, giving its result, and gives `None` otherwise.
pub fn run_if_debugging<R, F: FnOnce() -> R>(debugging: bool, func: F) -> (r: Option<R>)
    requires
        debugging ==> func.requires(()),
    ensures
        r is Some <==> debugging,
        r matches Some(v) ==> func.ensures((), v),
{
    if debugging {
        Some(func())
    } else {
        None
    }
}

} // verus!

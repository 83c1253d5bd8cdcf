//! The integer part of the analysis helpers.
use vstd::prelude::*;

verus! {

/// Doubles a value.
pub fn analyze(value: i64) -> (r: i64)
    requires
        i64::MIN <= 2 * value <= i64::MAX,
    ensures
        r == 2 * value,
{
    value * 2
}

} // verus!

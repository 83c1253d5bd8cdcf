//! Arithmetic on values seen by the analysis.

use vstd::prelude::*;

verus! {

/// Three times the value.
pub fn domain_analyze(value: i64) -> (r: i64)
    requires
        i64::MIN <= value * 3 <= i64::MAX,
    ensures
        r == value * 3,
{
    value * 3
}

/// Each value doubled plus one.
pub fn domain_transform(values: &[i64]) -> (r: Vec<i64>)
    requires
        forall|i: int| 0 <= i < values.len() ==> i64::MIN <= #[trigger] values[i] * 2 + 1 <= i64::MAX,
    ensures
        r.len() == values.len(),
        forall|i: int| 0 <= i < values.len() ==> #[trigger] r[i] == values[i] * 2 + 1,
{
    let mut r: Vec<i64> = Vec::new();
    let mut i: usize = 0;
    while i < values.len()
        invariant
            i <= values.len(),
            r.len() == i,
            forall|j: int| 0 <= j < values.len() ==> i64::MIN <= #[trigger] values[j] * 2 + 1 <= i64::MAX,
            forall|j: int| 0 <= j < i ==> #[trigger] r[j] == values[j] * 2 + 1,
        decreases values.len() - i,
    {
        r.push(values[i] * 2 + 1);
        i = i + 1;
    }
    r
}

/// The sums of the values at the same places, as far as the shorter list goes.
pub fn domain_combine(a: &[i64], b: &[i64]) -> (r: Vec<i64>)
    requires
        forall|i: int| 0 <= i < a.len() && i < b.len() ==> i64::MIN <= #[trigger] a[i] + b[i] <= i64::MAX,
    ensures
        r.len() == if a.len() < b.len() { a.len() } else { b.len() },
        forall|i: int| 0 <= i < r.len() ==> #[trigger] r[i] == a[i] + b[i],
{
    let n = if a.len() < b.len() {
        a.len()
    } else {
        b.len()
    };
    let mut r: Vec<i64> = Vec::new();
    let mut i: usize = 0;
    while i < n
        invariant
            i <= n,
            n <= a.len(),
            n <= b.len(),
            r.len() == i,
            forall|j: int| 0 <= j < a.len() && j < b.len() ==> i64::MIN <= #[trigger] a[j] + b[j] <= i64::MAX,
            forall|j: int| 0 <= j < i ==> #[trigger] r[j] == a[j] + b[j],
        decreases n - i,
    {
        r.push(a[i] + b[i]);
        i = i + 1;
    }
    r
}

} // verus!

//! Integer series: element-wise maps, filters, sums and windows over `i64` slices.
use vstd::prelude::*;

verus! {

/// The sum of a sequence, taken as a mathematical integer.
pub open spec fn seq_sum(s: Seq<i64>) -> int
    decreases s.len(),
{
    if s.len() == 0 {
        0
    } else {
        seq_sum(s.drop_last()) + s.last()
    }
}

/// Every running total of `s`, taken left to right from zero, fits in an `i64`.
pub open spec fn sums_fit(s: Seq<i64>) -> bool {
    forall|k: int| 0 <= k <= s.len() ==> i64::MIN <= #[trigger] seq_sum(s.take(k)) <= i64::MAX
}

/// `m` is the least element of the non-empty sequence `s`.
pub open spec fn is_min_of(m: i64, s: Seq<i64>) -> bool {
    &&& s.contains(m)
    &&& forall|i: int| 0 <= i < s.len() ==> m <= #[trigger] s[i]
}

/// `m` is the greatest element of the non-empty sequence `s`.
pub open spec fn is_max_of(m: i64, s: Seq<i64>) -> bool {
    &&& s.contains(m)
    &&& forall|i: int| 0 <= i < s.len() ==> #[trigger] s[i] <= m
}

/// The elements of `s` greater than `t`, in their order.
pub open spec fn above(s: Seq<i64>, t: i64) -> Seq<i64>
    decreases s.len(),
{
    if s.len() == 0 {
        Seq::empty()
    } else if s.last() > t {
        above(s.drop_last(), t).push(s.last())
    } else {
        above(s.drop_last(), t)
    }
}

/// Quotient of `a` by a positive `b`, rounded toward zero as Rust's `/` rounds.
pub open spec fn quot_toward_zero(a: int, b: int) -> int
    recommends
        b > 0,
{
    if a >= 0 {
        a / b
    } else {
        -((-a) / b)
    }
}

/// `s` is strictly increasing.
pub open spec fn strictly_increasing(s: Seq<i64>) -> bool {
    forall|i: int, j: int| 0 <= i < j < s.len() ==> s[i] < s[j]
}

/// The sum of an extended sequence is the sum of its prefix plus the new element.
pub proof fn lemma_sum_take_step(s: Seq<i64>, k: int)
    requires
        0 <= k < s.len(),
    ensures
        seq_sum(s.take(k + 1)) == seq_sum(s.take(k)) + s[k],
{
    assert(s.take(k + 1).drop_last() =~= s.take(k));
}

/// Pushing an element adds it to the set of a sequence's elements.
pub proof fn lemma_push_to_set(s: Seq<i64>, x: i64)
    ensures
        s.push(x).to_set() == s.to_set().insert(x),
{
    assert forall|y: i64| s.push(x).contains(y) <==> s.to_set().insert(x).contains(y) by {
        if s.push(x).contains(y) {
            let k = choose|k: int| 0 <= k < s.push(x).len() && s.push(x)[k] == y;
            if k < s.len() {
                assert(s[k] == y);
            }
        }
        if s.contains(y) {
            let k = choose|k: int| 0 <= k < s.len() && s[k] == y;
            assert(s.push(x)[k] == y);
        }
        if y == x {
            assert(s.push(x)[s.len() as int] == x);
        }
    }
    assert(s.push(x).to_set() =~= s.to_set().insert(x));
}

/// Doubles a value.
pub fn analyze(value: i64) -> (r: i64)
    requires
        i64::MIN <= 2 * value <= i64::MAX,
    ensures
        r == 2 * value,
{
    value * 2
}

/// Adds one to every element.
pub fn process_data(data: &[i64]) -> (r: Vec<i64>)
    requires
        forall|i: int| 0 <= i < data@.len() ==> #[trigger] data@[i] < i64::MAX,
    ensures
        r@.len() == data@.len(),
        forall|i: int| 0 <= i < data@.len() ==> #[trigger] r@[i] == data@[i] + 1,
{
    let mut r: Vec<i64> = Vec::new();
    let mut i: usize = 0;
    while i < data.len()
        invariant
            i <= data@.len(),
            r@.len() == i,
            forall|k: int| 0 <= k < data@.len() ==> #[trigger] data@[k] < i64::MAX,
            forall|k: int| 0 <= k < i ==> #[trigger] r@[k] == data@[k] + 1,
        decreases data@.len() - i,
    {
        r.push(data[i] + 1);
        i = i + 1;
    }
    r
}

/// Sum of all elements; every running total must fit in `i64`.
pub fn sum_values(values: &[i64]) -> (r: i64)
    requires
        sums_fit(values@),
    ensures
        r == seq_sum(values@),
{
    let mut total: i64 = 0;
    let mut i: usize = 0;
    while i < values.len()
        invariant
            i <= values@.len(),
            sums_fit(values@),
            total == seq_sum(values@.take(i as int)),
        decreases values@.len() - i,
    {
        proof {
            lemma_sum_take_step(values@, i as int);
            assert(i64::MIN <= seq_sum(values@.take(i + 1)) <= i64::MAX);
        }
        total = total + values[i];
        i = i + 1;
    }
    assert(values@.take(values@.len() as int) =~= values@);
    total
}

/// The least element of a non-empty slice.
pub fn min_value(values: &[i64]) -> (m: i64)
    requires
        values@.len() > 0,
    ensures
        is_min_of(m, values@),
{
    let mut m: i64 = values[0];
    let mut i: usize = 1;
    while i < values.len()
        invariant
            1 <= i <= values@.len(),
            exists|k: int| 0 <= k < i && values@[k] == m,
            forall|k: int| 0 <= k < i ==> m <= #[trigger] values@[k],
        decreases values@.len() - i,
    {
        if values[i] < m {
            m = values[i];
        }
        i = i + 1;
    }
    m
}

/// The greatest element of a non-empty slice.
pub fn max_value(values: &[i64]) -> (m: i64)
    requires
        values@.len() > 0,
    ensures
        is_max_of(m, values@),
{
    let mut m: i64 = values[0];
    let mut i: usize = 1;
    while i < values.len()
        invariant
            1 <= i <= values@.len(),
            exists|k: int| 0 <= k < i && values@[k] == m,
            forall|k: int| 0 <= k < i ==> #[trigger] values@[k] <= m,
        decreases values@.len() - i,
    {
        if values[i] > m {
            m = values[i];
        }
        i = i + 1;
    }
    m
}

/// Sum, least and greatest element; all three are zero for an empty slice.
pub fn compute_stats(values: &[i64]) -> (r: (i64, i64, i64))
    requires
        sums_fit(values@),
    ensures
        values@.len() == 0 ==> r == (0i64, 0i64, 0i64),
        values@.len() > 0 ==> {
            &&& r.0 == seq_sum(values@)
            &&& is_min_of(r.1, values@)
            &&& is_max_of(r.2, values@)
        },
{
    if values.len() == 0 {
        return (0, 0, 0);
    }
    let sum = sum_values(values);
    let min = min_value(values);
    let max = max_value(values);
    (sum, min, max)
}

/// The elements greater than `threshold`, in their order.
pub fn filter_values(data: &[i64], threshold: i64) -> (r: Vec<i64>)
    ensures
        r@ == above(data@, threshold),
{
    let mut r: Vec<i64> = Vec::new();
    let mut i: usize = 0;
    while i < data.len()
        invariant
            i <= data@.len(),
            r@ == above(data@.take(i as int), threshold),
        decreases data@.len() - i,
    {
        proof {
            assert(data@.take(i + 1).drop_last() =~= data@.take(i as int));
        }
        if data[i] > threshold {
            r.push(data[i]);
        }
        i = i + 1;
    }
    assert(data@.take(data@.len() as int) =~= data@);
    r
}

/// Applies `f` to every element.
pub fn transform_values<F: Fn(i64) -> i64>(data: &[i64], f: F) -> (r: Vec<i64>)
    requires
        forall|i: int| 0 <= i < data@.len() ==> f.requires((#[trigger] data@[i],)),
    ensures
        r@.len() == data@.len(),
        forall|i: int| 0 <= i < data@.len() ==> f.ensures((data@[i],), #[trigger] r@[i]),
{
    let mut r: Vec<i64> = Vec::new();
    let mut i: usize = 0;
    while i < data.len()
        invariant
            i <= data@.len(),
            r@.len() == i,
            forall|k: int| 0 <= k < data@.len() ==> f.requires((#[trigger] data@[k],)),
            forall|k: int| 0 <= k < i ==> f.ensures((data@[k],), #[trigger] r@[k]),
        decreases data@.len() - i,
    {
        let v = f(data[i]);
        r.push(v);
        i = i + 1;
    }
    r
}

/// Inserts `x` into a strictly increasing vector, keeping it strictly increasing.
fn insert_sorted(v: &mut Vec<i64>, x: i64)
    requires
        strictly_increasing(old(v)@),
    ensures
        strictly_increasing(final(v)@),
        final(v)@.to_set() == old(v)@.to_set().insert(x),
{
    let mut i: usize = 0;
    while i < v.len() && v[i] < x
        invariant
            i <= v@.len(),
            forall|k: int| 0 <= k < i ==> #[trigger] v@[k] < x,
        decreases v@.len() - i,
    {
        i = i + 1;
    }
    if i < v.len() && v[i] == x {
        assert(old(v)@.to_set().insert(x) =~= old(v)@.to_set()) by {
            assert(old(v)@.contains(x));
        }
        return;
    }
    let ghost before = v@;
    v.insert(i, x);
    proof {
        assert forall|a: int, b: int| 0 <= a < b < v@.len() implies v@[a] < v@[b] by {
            if b < i {
            } else if b == i {
            } else if a < i {
                assert(v@[b] == before[b - 1]);
            } else if a == i {
                assert(v@[b] == before[b - 1]);
                assert(x < before[i as int]);
                assert(before[i as int] <= before[b - 1]);
            } else {
                assert(v@[b] == before[b - 1]);
                assert(v@[a] == before[a - 1]);
            }
        }
        assert forall|y: i64| v@.to_set().contains(y) <==> before.to_set().insert(x).contains(y) by {
            if v@.to_set().contains(y) {
                let k = choose|k: int| 0 <= k < v@.len() && v@[k] == y;
                if k < i {
                    assert(before[k] == y);
                } else if k > i {
                    assert(before[k - 1] == y);
                }
            }
            if before.contains(y) {
                let k = choose|k: int| 0 <= k < before.len() && before[k] == y;
                if k < i {
                    assert(v@[k] == y);
                } else {
                    assert(v@[k + 1] == y);
                }
            }
            if y == x {
                assert(v@[i as int] == x);
            }
        }
        assert(v@.to_set() =~= before.to_set().insert(x));
    }
}

/// The values of both slices, ascending, each once.
pub fn merge_results(a: &[i64], b: &[i64]) -> (r: Vec<i64>)
    ensures
        strictly_increasing(r@),
        r@.to_set() == a@.to_set() + b@.to_set(),
{
    let mut r: Vec<i64> = Vec::new();
    let mut i: usize = 0;
    while i < a.len()
        invariant
            i <= a@.len(),
            strictly_increasing(r@),
            r@.to_set() == a@.take(i as int).to_set(),
        decreases a@.len() - i,
    {
        insert_sorted(&mut r, a[i]);
        proof {
            assert(a@.take(i + 1) =~= a@.take(i as int).push(a@[i as int]));
            lemma_push_to_set(a@.take(i as int), a@[i as int]);
        }
        i = i + 1;
    }
    assert(a@.take(a@.len() as int) =~= a@);
    let mut j: usize = 0;
    while j < b.len()
        invariant
            j <= b@.len(),
            strictly_increasing(r@),
            r@.to_set() == a@.to_set() + b@.take(j as int).to_set(),
        decreases b@.len() - j,
    {
        insert_sorted(&mut r, b[j]);
        proof {
            assert(b@.take(j + 1) =~= b@.take(j as int).push(b@[j as int]));
            lemma_push_to_set(b@.take(j as int), b@[j as int]);
            assert(r@.to_set() =~= a@.to_set() + b@.take(j + 1).to_set());
        }
        j = j + 1;
    }
    assert(b@.take(b@.len() as int) =~= b@);
    r
}

/// Combines the values by the named operation: `"sum"`, `"min"`, `"max"` or `"avg"`;
/// the last three give zero for an empty slice, and any other name gives zero.
pub fn aggregate(values: &[i64], op: &str) -> (r: i64)
    requires
        (op@ == "sum"@ || op@ == "avg"@) ==> sums_fit(values@),
        op@ == "avg"@ ==> values@.len() <= i64::MAX,
    ensures
        op@ == "sum"@ ==> r == seq_sum(values@),
        op@ == "avg"@ ==> r == (if values@.len() == 0 {
            0
        } else {
            quot_toward_zero(seq_sum(values@), values@.len() as int)
        }),
        op@ == "min"@ ==> (if values@.len() == 0 { r == 0 } else { is_min_of(r, values@) }),
        op@ == "max"@ ==> (if values@.len() == 0 { r == 0 } else { is_max_of(r, values@) }),
        op@ != "sum"@ && op@ != "avg"@ && op@ != "min"@ && op@ != "max"@ ==> r == 0,
{
    proof {
        reveal_strlit("sum");
        reveal_strlit("min");
        reveal_strlit("max");
        reveal_strlit("avg");
        assert("sum"@[0] == 's' && "min"@[1] == 'i' && "max"@[0] == 'm' && "avg"@[0] == 'a');
    }
    if crate::text::same_text(op, "sum") {
        sum_values(values)
    } else if crate::text::same_text(op, "min") {
        if values.len() == 0 {
            0
        } else {
            min_value(values)
        }
    } else if crate::text::same_text(op, "max") {
        if values.len() == 0 {
            0
        } else {
            max_value(values)
        }
    } else if crate::text::same_text(op, "avg") {
        if values.len() == 0 {
            0
        } else {
            let total = sum_values(values);
            let n: i64 = values.len() as i64;
            total / n
        }
    } else {
        0
    }
}

/// Whether `min_val <= value <= max_val`.
pub fn range_check(value: i64, min_val: i64, max_val: i64) -> (r: bool)
    ensures
        r == (min_val <= value && value <= max_val),
{
    value >= min_val && value <= max_val
}

/// `min_val` below it, `max_val` above it, else the value itself (the lower bound is
/// tested first).
pub fn clamp(value: i64, min_val: i64, max_val: i64) -> (r: i64)
    ensures
        r == (if value < min_val {
            min_val
        } else if value > max_val {
            max_val
        } else {
            value
        }),
{
    if value < min_val {
        min_val
    } else if value > max_val {
        max_val
    } else {
        value
    }
}

/// Splits the data into consecutive batches of `batch_size` (the last may be shorter).
pub fn batch_process(data: &[i64], batch_size: usize) -> (r: Vec<Vec<i64>>)
    requires
        batch_size > 0,
    ensures
        r@.len() * batch_size >= data@.len(),
        r@.len() == 0 || (r@.len() - 1) * batch_size < data@.len(),
        forall|k: int|
            0 <= k < r@.len() ==> (#[trigger] r@[k])@ == data@.subrange(
                k * batch_size,
                if (k + 1) * batch_size <= data@.len() {
                    (k + 1) * batch_size
                } else {
                    data@.len() as int
                },
            ),
{
    let mut r: Vec<Vec<i64>> = Vec::new();
    let mut start: usize = 0;
    assert(r@.len() * batch_size == 0);
    while start < data.len()
        invariant
            batch_size > 0,
            start <= data@.len(),
            start == data@.len() || start == r@.len() * batch_size,
            start <= r@.len() * batch_size,
            r@.len() == 0 || (r@.len() - 1) * batch_size < data@.len(),
            forall|k: int|
                0 <= k < r@.len() ==> (#[trigger] r@[k])@ == data@.subrange(
                    k * batch_size,
                    if (k + 1) * batch_size <= data@.len() {
                        (k + 1) * batch_size
                    } else {
                        data@.len() as int
                    },
                ),
        decreases data@.len() - start,
    {
        let end: usize = if data.len() - start >= batch_size {
            start + batch_size
        } else {
            data.len()
        };
        let mut chunk: Vec<i64> = Vec::new();
        let mut i: usize = start;
        while i < end
            invariant
                start <= i <= end <= data@.len(),
                chunk@ == data@.subrange(start as int, i as int),
            decreases end - i,
        {
            chunk.push(data[i]);
            i = i + 1;
            assert(chunk@ =~= data@.subrange(start as int, i as int));
        }
        let ghost k = r@.len() as int;
        proof {
            assert((k + 1) * batch_size == k * batch_size + batch_size) by (nonlinear_arith);
        }
        r.push(chunk);
        start = end;
    }
    r
}

/// The sums of every window of `window` consecutive elements, left to right; empty when
/// the window is zero or longer than the data.
pub fn rolling_window(data: &[i64], window: usize) -> (r: Vec<i64>)
    requires
        0 < window <= data@.len() ==> forall|i: int|
            0 <= i <= data@.len() - window ==> sums_fit(
                #[trigger] data@.subrange(i, i + window),
            ),
    ensures
        (data@.len() < window || window == 0) ==> r@.len() == 0,
        0 < window <= data@.len() ==> {
            &&& r@.len() == data@.len() - window + 1
            &&& forall|i: int|
                0 <= i < r@.len() ==> #[trigger] r@[i] == seq_sum(data@.subrange(i, i + window))
        },
{
    let mut r: Vec<i64> = Vec::new();
    if data.len() < window || window == 0 {
        return r;
    }
    let last: usize = data.len() - window;
    let mut i: usize = 0;
    while i <= last
        invariant
            0 < window <= data@.len(),
            last == data@.len() - window,
            i <= last + 1,
            r@.len() == i,
            forall|k: int| 0 <= k <= last ==> sums_fit(#[trigger] data@.subrange(k, k + window)),
            forall|k: int|
                0 <= k < i ==> #[trigger] r@[k] == seq_sum(data@.subrange(k, k + window)),
        decreases last + 1 - i,
    {
        let hi: usize = i + (data.len() - last);
        let w = sum_of_range(data, i, hi);
        r.push(w);
        i = i + 1;
    }
    r
}

/// The sum of `data[lo..hi]`, accumulated left to right.
fn sum_of_range(data: &[i64], lo: usize, hi: usize) -> (r: i64)
    requires
        lo <= hi <= data@.len(),
        sums_fit(data@.subrange(lo as int, hi as int)),
    ensures
        r == seq_sum(data@.subrange(lo as int, hi as int)),
{
    let ghost s = data@.subrange(lo as int, hi as int);
    let mut total: i64 = 0;
    let mut j: usize = lo;
    while j < hi
        invariant
            lo <= j <= hi <= data@.len(),
            s == data@.subrange(lo as int, hi as int),
            sums_fit(s),
            total == seq_sum(s.take(j - lo)),
        decreases hi - j,
    {
        proof {
            lemma_sum_take_step(s, j - lo);
            assert(i64::MIN <= seq_sum(s.take(j - lo + 1)) <= i64::MAX);
        }
        total = total + data[j];
        j = j + 1;
    }
    assert(s.take(hi - lo) =~= s);
    total
}

/// The running totals: element `i` is the sum of the first `i + 1` values.
pub fn cumulative_sum(values: &[i64]) -> (r: Vec<i64>)
    requires
        sums_fit(values@),
    ensures
        r@.len() == values@.len(),
        forall|i: int| 0 <= i < r@.len() ==> #[trigger] r@[i] == seq_sum(values@.take(i + 1)),
{
    let mut r: Vec<i64> = Vec::new();
    let mut total: i64 = 0;
    let mut i: usize = 0;
    while i < values.len()
        invariant
            i <= values@.len(),
            sums_fit(values@),
            total == seq_sum(values@.take(i as int)),
            r@.len() == i,
            forall|k: int| 0 <= k < i ==> #[trigger] r@[k] == seq_sum(values@.take(k + 1)),
        decreases values@.len() - i,
    {
        proof {
            lemma_sum_take_step(values@, i as int);
            assert(i64::MIN <= seq_sum(values@.take(i + 1)) <= i64::MAX);
        }
        total = total + values[i];
        r.push(total);
        i = i + 1;
    }
    r
}

/// A `classes` by `classes` matrix of zeros; the labels are not read.
pub fn confusion_matrix(predicted: &[i32], actual: &[i32], classes: usize) -> (r: Vec<Vec<i32>>)
    ensures
        r@.len() == classes,
        forall|i: int|
            0 <= i < classes ==> (#[trigger] r@[i])@ == Seq::new(classes as nat, |j: int| 0i32),
{
    let mut r: Vec<Vec<i32>> = Vec::new();
    let mut i: usize = 0;
    while i < classes
        invariant
            i <= classes,
            r@.len() == i,
            forall|k: int|
                0 <= k < i ==> (#[trigger] r@[k])@ == Seq::new(classes as nat, |j: int| 0i32),
        decreases classes - i,
    {
        let mut row: Vec<i32> = Vec::new();
        let mut j: usize = 0;
        while j < classes
            invariant
                j <= classes,
                row@ == Seq::new(j as nat, |x: int| 0i32),
            decreases classes - j,
        {
            row.push(0);
            j = j + 1;
            assert(row@ =~= Seq::new(j as nat, |x: int| 0i32));
        }
        r.push(row);
        i = i + 1;
    }
    r
}

} // verus!

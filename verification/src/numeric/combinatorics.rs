//! Counting functions: factorials, binomial coefficients, figurate numbers, Stirling,
//! Bell and partition numbers.
use vstd::prelude::*;
use crate::numeric::number_theory::quot;

verus! {

/// `n!`.
pub open spec fn factorial_spec(n: nat) -> nat
    decreases n,
{
    if n == 0 {
        1
    } else {
        n * factorial_spec((n - 1) as nat)
    }
}

/// The Fibonacci numbers, from `0, 1`.
pub open spec fn fib(n: nat) -> nat
    decreases n,
{
    if n == 0 {
        0
    } else if n == 1 {
        1
    } else {
        fib((n - 2) as nat) + fib((n - 1) as nat)
    }
}

/// `n * (n - 1) * ... * (n - k + 1)`, the number of ordered selections of `k` from `n`.
pub open spec fn falling_factorial(n: nat, k: nat) -> nat
    decreases k,
{
    if k == 0 {
        1
    } else {
        falling_factorial(n, (k - 1) as nat) * (n - (k - 1)) as nat
    }
}

/// The binomial coefficient, by Pascal's rule.
pub open spec fn binom(n: nat, k: nat) -> nat
    decreases n,
{
    if k == 0 {
        1
    } else if n == 0 {
        0
    } else {
        binom((n - 1) as nat, (k - 1) as nat) + binom((n - 1) as nat, k)
    }
}

proof fn lemma_factorial_grows(i: nat, n: nat)
    requires
        i <= n,
    ensures
        factorial_spec(i) <= factorial_spec(n),
        factorial_spec(i) >= 1,
    decreases n,
{
    if i < n {
        lemma_factorial_grows(i, (n - 1) as nat);
        assert(factorial_spec((n - 1) as nat) <= n * factorial_spec((n - 1) as nat)) by (nonlinear_arith)
            requires
                n >= 1,
                factorial_spec((n - 1) as nat) >= 1,
        ;
    } else if i > 0 {
        lemma_factorial_grows((i - 1) as nat, (i - 1) as nat);
        assert(i * factorial_spec((i - 1) as nat) >= 1) by (nonlinear_arith)
            requires
                i >= 1,
                factorial_spec((i - 1) as nat) >= 1,
        ;
    }
}

/// `n!`, as the product `1 * 2 * ... * n`.
pub fn factorial(n: u64) -> (r: u64)
    requires
        factorial_spec(n as nat) <= u64::MAX,
    ensures
        r == factorial_spec(n as nat),
{
    let mut r: u64 = 1;
    let mut i: u64 = 0;
    while i < n
        invariant
            i <= n,
            r == factorial_spec(i as nat),
            factorial_spec(n as nat) <= u64::MAX,
        decreases n - i,
    {
        proof {
            lemma_factorial_grows((i + 1) as nat, n as nat);
            assert(r * (i + 1) == factorial_spec((i + 1) as nat)) by (nonlinear_arith)
                requires
                    r == factorial_spec(i as nat),
                    factorial_spec((i + 1) as nat) == (i + 1) * factorial_spec(i as nat),
            ;
        }
        i = i + 1;
        r = r * i;
    }
    r
}

proof fn lemma_fib_grows(i: nat, n: nat)
    requires
        i <= n,
    ensures
        fib(i) <= fib(n),
    decreases n,
{
    if i < n {
        lemma_fib_grows(i, (n - 1) as nat);
    }
}

/// The `n`-th Fibonacci number, iterating from `0, 1`.
pub fn fibonacci(n: usize) -> (r: u64)
    requires
        fib(n as nat) <= u64::MAX,
    ensures
        r == fib(n as nat),
{
    if n == 0 {
        return 0;
    }
    if n == 1 {
        return 1;
    }
    let mut a: u64 = 0;
    let mut b: u64 = 1;
    let mut i: usize = 1;
    while i < n
        invariant
            1 <= i <= n,
            a == fib((i - 1) as nat),
            b == fib(i as nat),
            fib(n as nat) <= u64::MAX,
        decreases n - i,
    {
        proof {
            lemma_fib_grows((i + 1) as nat, n as nat);
        }
        let temp = a + b;
        a = b;
        b = temp;
        i = i + 1;
    }
    b
}

proof fn lemma_falling_grows(n: nat, i: nat, k: nat)
    requires
        i <= k <= n,
    ensures
        1 <= falling_factorial(n, i) <= falling_factorial(n, k),
    decreases k,
{
    if i < k {
        lemma_falling_grows(n, i, (k - 1) as nat);
        assert(falling_factorial(n, (k - 1) as nat) <= falling_factorial(n, (k - 1) as nat) * (n - (k
            - 1)) as nat) by (nonlinear_arith)
            requires
                falling_factorial(n, (k - 1) as nat) >= 1,
                n - (k - 1) >= 1,
        ;
    } else if i > 0 {
        lemma_falling_grows(n, (i - 1) as nat, (i - 1) as nat);
        assert(falling_factorial(n, (i - 1) as nat) * (n - (i - 1)) as nat >= 1) by (nonlinear_arith)
            requires
                falling_factorial(n, (i - 1) as nat) >= 1,
                n - (i - 1) >= 1,
        ;
    }
}

/// The number of ordered selections of `k` items out of `n`; zero when `k > n`.
pub fn permutations(n: usize, k: usize) -> (r: u64)
    requires
        k <= n ==> falling_factorial(n as nat, k as nat) <= u64::MAX,
    ensures
        r == (if k > n {
            0
        } else {
            falling_factorial(n as nat, k as nat)
        }),
{
    if k > n {
        return 0;
    }
    let mut r: u64 = 1;
    let mut i: usize = 0;
    while i < k
        invariant
            i <= k <= n,
            r == falling_factorial(n as nat, i as nat),
            falling_factorial(n as nat, k as nat) <= u64::MAX,
        decreases k - i,
    {
        proof {
            lemma_falling_grows(n as nat, (i + 1) as nat, k as nat);
        }
        r = r * ((n - i) as u64);
        i = i + 1;
    }
    r
}

/// Stepping the multiplicative formula: `binom(n, k + 1) * (k + 1) == binom(n, k) * (n - k)`.
pub proof fn lemma_binom_step(n: nat, k: nat)
    ensures
        binom(n, k + 1) * (k + 1) == binom(n, k) * (n - k),
    decreases n, k,
{
    if n == 0 {
        if k == 0 {
            assert(binom(0, 1) == 0);
            assert(binom(0, 0) == 1);
            assert(binom(n, k) * (n - k) == 0);
        } else {
            assert(binom(0, k + 1) == 0);
            assert(binom(0, k) == 0);
            assert(binom(n, k + 1) * (k + 1) == 0);
            assert(binom(n, k) * (n - k) == 0);
        }
    } else {
        let m = (n - 1) as nat;
        lemma_binom_step(m, k);
        if k == 0 {
            assert(binom(n, 1) == binom(m, 0) + binom(m, 1));
            assert(binom(m, 1) * 1 == binom(m, 0) * (m - 0));
            assert(binom(m, 0) == 1);
            assert(binom(n, 0) == 1);
            assert(binom(m, 1) == m) by (nonlinear_arith)
                requires
                    binom(m, k + 1) * (k + 1) == binom(m, k) * (m - k),
                    k == 0,
                    binom(m, k) == 1,
            ;
            assert(binom(n, 1) == binom(m, 0) + binom(m, 1));
            assert(m + 1 == n);
            assert(binom(n, 1) == n);
            assert(binom(n, k + 1) * (k + 1) == binom(n, k) * (n - k)) by (nonlinear_arith)
                requires
                    binom(n, 1) == n,
                    binom(n, 0) == 1,
                    k == 0,
            ;
        } else {
            lemma_binom_step(m, (k - 1) as nat);
            assert(binom(n, k + 1) == binom(m, k) + binom(m, k + 1));
            assert(binom(n, k) == binom(m, (k - 1) as nat) + binom(m, k));
            assert(binom(n, k + 1) * (k + 1) == binom(n, k) * (n - k)) by (nonlinear_arith)
                requires
                    binom(n, k + 1) == binom(m, k) + binom(m, k + 1),
                    binom(n, k) == binom(m, (k - 1) as nat) + binom(m, k),
                    binom(m, k + 1) * (k + 1) == binom(m, k) * (m - k),
                    binom(m, k) * k == binom(m, (k - 1) as nat) * (m - (k - 1)),
                    m == n - 1,
            ;
        }
    }
}

/// Pascal's triangle is symmetric.
pub proof fn lemma_binom_symmetric(n: nat, k: nat)
    requires
        k <= n,
    ensures
        binom(n, k) == binom(n, (n - k) as nat),
    decreases n,
{
    if n > 0 && k > 0 && k < n {
        let m = (n - 1) as nat;
        lemma_binom_symmetric(m, (k - 1) as nat);
        lemma_binom_symmetric(m, k);
        assert(binom(n, (n - k) as nat) == binom(m, (n - k - 1) as nat) + binom(m, (n - k) as nat));
    } else if k == n && n > 0 {
        lemma_binom_diagonal(n);
    } else if k == 0 && n > 0 {
        lemma_binom_diagonal(n);
    }
}

/// `binom(n, n) == 1`.
pub proof fn lemma_binom_diagonal(n: nat)
    ensures
        binom(n, n) == 1,
    decreases n,
{
    if n > 0 {
        lemma_binom_diagonal((n - 1) as nat);
        lemma_binom_above((n - 1) as nat, n);
    }
}

/// `binom(n, k) == 0` for `k > n`.
pub proof fn lemma_binom_above(n: nat, k: nat)
    requires
        k > n,
    ensures
        binom(n, k) == 0,
    decreases n,
{
    if n > 0 {
        lemma_binom_above((n - 1) as nat, (k - 1) as nat);
        lemma_binom_above((n - 1) as nat, k);
    }
}

/// The binomial coefficient `n` choose `k` (zero when `k > n`), by the multiplicative
/// formula over the smaller of `k` and `n - k`.
pub fn combinations(n: usize, k: usize) -> (r: u64)
    requires
        k <= n ==> forall|i: int|
            0 <= i < (if k <= n - k {
                k as int
            } else {
                n - k
            }) ==> #[trigger] binom(n as nat, i as nat) * (n - i) <= u64::MAX,
    ensures
        r == binom(n as nat, k as nat),
{
    if k > n {
        proof {
            lemma_binom_above(n as nat, k as nat);
        }
        return 0;
    }
    let kk: usize = if k <= n - k {
        k
    } else {
        n - k
    };
    let mut result: u64 = 1;
    let mut i: usize = 0;
    while i < kk
        invariant
            kk <= n,
            kk == (if k <= n - k {
                k as int
            } else {
                n - k
            }),
            i <= kk,
            result == binom(n as nat, i as nat),
            forall|j: int| 0 <= j < kk ==> #[trigger] binom(n as nat, j as nat) * (n - j) <= u64::MAX,
        decreases kk - i,
    {
        proof {
            lemma_binom_step(n as nat, i as nat);
            assert(binom(n as nat, i as nat) * (n - i) <= u64::MAX);
            assert((binom(n as nat, i as nat) * (n - i)) / (i + 1) == binom(n as nat, (i + 1) as nat)) by {
                vstd::arithmetic::div_mod::lemma_div_multiples_vanish(
                    binom(n as nat, (i + 1) as nat) as int,
                    (i + 1) as int,
                );
                assert(binom(n as nat, (i + 1) as nat) * (i + 1) == (i + 1) * binom(
                    n as nat,
                    (i + 1) as nat,
                )) by (nonlinear_arith);
            }
        }
        result = result * ((n - i) as u64) / ((i + 1) as u64);
        i = i + 1;
    }
    proof {
        lemma_binom_symmetric(n as nat, k as nat);
    }
    result
}

/// `1 + 2 + ... + n`.
pub open spec fn sum_upto(n: int) -> int
    decreases n,
{
    if n <= 0 {
        0
    } else {
        sum_upto(n - 1) + n
    }
}

/// `1^2 + 2^2 + ... + n^2`.
pub open spec fn squares_upto(n: int) -> int
    decreases n,
{
    if n <= 0 {
        0
    } else {
        squares_upto(n - 1) + n * n
    }
}

/// `1^3 + 2^3 + ... + n^3`.
pub open spec fn cubes_upto(n: int) -> int
    decreases n,
{
    if n <= 0 {
        0
    } else {
        cubes_upto(n - 1) + n * n * n
    }
}

proof fn lemma_sum_upto(n: int)
    requires
        n >= 0,
    ensures
        2 * sum_upto(n) == n * (n + 1),
    decreases n,
{
    if n > 0 {
        lemma_sum_upto(n - 1);
        assert(2 * sum_upto(n) == n * (n + 1)) by (nonlinear_arith)
            requires
                2 * sum_upto(n - 1) == (n - 1) * n,
                sum_upto(n) == sum_upto(n - 1) + n,
        ;
    } else {
        assert(n * (n + 1) == 0) by (nonlinear_arith)
            requires
                n == 0,
        ;
    }
}

proof fn lemma_squares_upto(n: int)
    requires
        n >= 0,
    ensures
        6 * squares_upto(n) == n * (n + 1) * (2 * n + 1),
    decreases n,
{
    if n > 0 {
        lemma_squares_upto(n - 1);
        assert(6 * squares_upto(n) == n * (n + 1) * (2 * n + 1)) by (nonlinear_arith)
            requires
                6 * squares_upto(n - 1) == (n - 1) * n * (2 * (n - 1) + 1),
                squares_upto(n) == squares_upto(n - 1) + n * n,
        ;
    } else {
        assert(n * (n + 1) * (2 * n + 1) == 0) by (nonlinear_arith)
            requires
                n == 0,
        ;
    }
}

proof fn lemma_cubes_upto(n: int)
    requires
        n >= 0,
    ensures
        4 * cubes_upto(n) == (n * (n + 1)) * (n * (n + 1)),
    decreases n,
{
    if n > 0 {
        lemma_cubes_upto(n - 1);
        assert(4 * cubes_upto(n) == (n * (n + 1)) * (n * (n + 1))) by (nonlinear_arith)
            requires
                4 * cubes_upto(n - 1) == ((n - 1) * n) * ((n - 1) * n),
                cubes_upto(n) == cubes_upto(n - 1) + n * n * n,
        ;
    } else {
        assert((n * (n + 1)) * (n * (n + 1)) == 0) by (nonlinear_arith)
            requires
                n == 0,
        ;
    }
}

/// `n * (n + 1) / 2`, divided as Rust divides; for `n >= 0` it is `1 + 2 + ... + n`.
pub fn triangle_number(n: i64) -> (r: i64)
    requires
        i64::MIN <= n * (n + 1) <= i64::MAX,
        n < i64::MAX,
    ensures
        r == quot(n * (n + 1), 2),
        n >= 0 ==> r == sum_upto(n as int),
{
    proof {
        if n >= 0 {
            lemma_sum_upto(n as int);
        }
    }
    n * (n + 1) / 2
}

/// `n * (n + 1) * (2n + 1) / 6`, divided as Rust divides; for `n >= 0` it is the sum of the
/// first `n` squares.
pub fn sum_of_squares(n: i64) -> (r: i64)
    requires
        i64::MIN <= n * (n + 1) * (2 * n + 1) <= i64::MAX,
        i64::MIN <= n * (n + 1) <= i64::MAX,
        i64::MIN <= 2 * n <= i64::MAX,
        2 * n + 1 <= i64::MAX,
        n < i64::MAX,
    ensures
        r == quot(n * (n + 1) * (2 * n + 1), 6),
        n >= 0 ==> r == squares_upto(n as int),
{
    proof {
        if n >= 0 {
            lemma_squares_upto(n as int);
        }
    }
    n * (n + 1) * (2 * n + 1) / 6
}

/// The square of the `n`-th triangle number; for `n >= 0` it is the sum of the first `n`
/// cubes.
pub fn sum_of_cubes(n: i64) -> (r: i64)
    requires
        i64::MIN <= n * (n + 1) <= i64::MAX,
        n < i64::MAX,
        i64::MIN <= quot(n * (n + 1), 2) * quot(n * (n + 1), 2) <= i64::MAX,
    ensures
        r == quot(n * (n + 1), 2) * quot(n * (n + 1), 2),
        n >= 0 ==> r == cubes_upto(n as int),
{
    let s = n * (n + 1) / 2;
    proof {
        if n >= 0 {
            lemma_cubes_upto(n as int);
            lemma_sum_upto(n as int);
            assert(s * s == cubes_upto(n as int)) by (nonlinear_arith)
                requires
                    2 * sum_upto(n as int) == n * (n + 1),
                    s == sum_upto(n as int),
                    4 * cubes_upto(n as int) == (n * (n + 1)) * (n * (n + 1)),
            ;
        }
    }
    s * s
}

/// `n * (3n - 1) / 2`, divided as Rust divides.
pub fn pentagonal_number(n: i64) -> (r: i64)
    requires
        i64::MIN <= 3 * n <= i64::MAX,
        i64::MIN <= 3 * n - 1,
        i64::MIN <= n * (3 * n - 1) <= i64::MAX,
    ensures
        r == quot(n * (3 * n - 1), 2),
{
    n * (3 * n - 1) / 2
}

/// `n * (2n - 1)`.
pub fn hexagonal_number(n: i64) -> (r: i64)
    requires
        i64::MIN <= 2 * n <= i64::MAX,
        i64::MIN <= 2 * n - 1,
        i64::MIN <= n * (2 * n - 1) <= i64::MAX,
    ensures
        r == n * (2 * n - 1),
{
    n * (2 * n - 1)
}

/// For non-negative numbers, comparing squares compares the numbers.
proof fn lemma_square_monotone(a: int, b: int)
    requires
        0 <= a,
        0 <= b,
        a * a <= b * b,
    ensures
        a <= b,
{
    if a > b {
        assert(a * a > b * b) by (nonlinear_arith)
            requires
                a > b,
                b >= 0,
        ;
    }
}

/// Whether `n` is a triangle number: `8n + 1` is the square of an integer.
pub fn is_triangle_number(n: i64) -> (r: bool)
    requires
        i64::MIN <= 8 * n + 1 <= i64::MAX,
    ensures
        r == (exists|x: int| 0 <= x && #[trigger] (x * x) == 8 * n + 1),
{
    let m: i64 = 8 * n + 1;
    if m < 0 {
        assert forall|x: int| 0 <= x implies #[trigger] (x * x) != 8 * n + 1 by {
            assert(x * x >= 0) by (nonlinear_arith)
                requires
                    x >= 0,
            ;
        }
        return false;
    }
    let mut lo: i64 = 0;
    let mut hi: i64 = 3037000500;
    assert(hi * hi > i64::MAX) by (nonlinear_arith)
        requires
            hi == 3037000500,
    ;
    while hi - lo > 1
        invariant
            0 <= lo < hi <= 3037000500,
            lo * lo <= m,
            hi * hi > m,
        decreases hi - lo,
    {
        let mid: i64 = lo + (hi - lo) / 2;
        assert(mid * mid <= 3037000499 * 3037000499) by (nonlinear_arith)
            requires
                0 <= mid <= 3037000499,
        ;
        if mid * mid <= m {
            lo = mid;
        } else {
            hi = mid;
        }
    }
    proof {
        assert(hi == lo + 1);
        assert forall|x: int| 0 <= x && #[trigger] (x * x) == 8 * n + 1 implies x == lo by {
            lemma_square_monotone(lo as int, x);
            if x >= hi {
                assert(x * x >= hi * hi) by (nonlinear_arith)
                    requires
                        x >= hi,
                        hi >= 0,
                ;
            }
        }
    }
    lo * lo == m
}

/// Stirling numbers of the second kind: the ways to split `n` items into `k` non-empty
/// unlabelled groups.
pub open spec fn stirling2(n: nat, k: nat) -> nat
    decreases n,
{
    if n == 0 {
        if k == 0 {
            1
        } else {
            0
        }
    } else if k == 0 {
        0
    } else {
        k * stirling2((n - 1) as nat, k) + stirling2((n - 1) as nat, (k - 1) as nat)
    }
}

/// `stirling_second(n, k)`: zero when `k > n`, one when `k` is zero or `n` (decided before
/// any table is built), else the Stirling number of the second kind.
pub fn stirling_second(n: usize, k: usize) -> (r: u64)
    requires
        n < usize::MAX,
        0 < k < n ==> forall|i: nat, j: nat|
            1 <= i <= n && 1 <= j <= k ==> #[trigger] stirling2(i, j) <= u64::MAX,
    ensures
        r == (if k > n {
            0
        } else if k == 0 || k == n {
            1
        } else {
            stirling2(n as nat, k as nat)
        }),
{
    if k > n {
        return 0;
    }
    if k == 0 || k == n {
        return 1;
    }
    let mut prev: Vec<u64> = Vec::new();
    let mut j: usize = 0;
    while j <= k
        invariant
            j <= k + 1,
            k < n,
            prev@.len() == j,
            forall|x: int| 0 <= x < j ==> #[trigger] prev@[x] == stirling2(0, x as nat),
        decreases k + 1 - j,
    {
        prev.push(if j == 0 {
            1
        } else {
            0
        });
        j = j + 1;
    }
    let mut i: usize = 1;
    while i <= n
        invariant
            1 <= i <= n + 1,
            0 < k < n,
            prev@.len() == k + 1,
            forall|x: int| 0 <= x <= k ==> #[trigger] prev@[x] == stirling2((i - 1) as nat, x as nat),
            forall|a: nat, b: nat| 1 <= a <= n && 1 <= b <= k ==> #[trigger] stirling2(a, b) <= u64::MAX,
            n < usize::MAX,
        decreases n + 1 - i,
    {
        let mut cur: Vec<u64> = Vec::new();
        cur.push(0);
        let mut j: usize = 1;
        while j <= k
            invariant
                1 <= i <= n,
                1 <= j <= k + 1,
                0 < k < n,
                prev@.len() == k + 1,
                cur@.len() == j,
                forall|x: int| 0 <= x <= k ==> #[trigger] prev@[x] == stirling2((i - 1) as nat, x as nat),
                forall|x: int| 0 <= x < j ==> #[trigger] cur@[x] == stirling2(i as nat, x as nat),
                forall|a: nat, b: nat|
                    1 <= a <= n && 1 <= b <= k ==> #[trigger] stirling2(a, b) <= u64::MAX,
            decreases k + 1 - j,
        {
            proof {
                assert(stirling2(i as nat, j as nat) <= u64::MAX);
                assert(stirling2(i as nat, j as nat) == j * stirling2((i - 1) as nat, j as nat)
                    + stirling2((i - 1) as nat, (j - 1) as nat));
            }
            let v = (j as u64) * prev[j] + prev[j - 1];
            cur.push(v);
            j = j + 1;
        }
        prev = cur;
        i = i + 1;
    }
    prev[k]
}

/// The triangle built by `eulerian_number`: row one is `1`, and entry `j` of row `i` is
/// entry `j - 1` of the row above plus `i - 1` times entry `j` of the row above, each
/// term present only where the loop bounds of `eulerian_number` reach it.
pub open spec fn euler_triangle(i: nat, j: int) -> int
    decreases i,
{
    if i <= 1 {
        if j == 0 {
            1
        } else {
            0
        }
    } else {
        (if j > 0 {
            euler_triangle((i - 1) as nat, j - 1)
        } else {
            0
        }) + (if j < i - 1 {
            (i - 1) * euler_triangle((i - 1) as nat, j)
        } else {
            0
        })
    }
}

/// Entry `k` of row `n` of that triangle; zero when `k >= n`.
pub fn eulerian_number(n: usize, k: usize) -> (r: u64)
    requires
        n < usize::MAX,
        k < n ==> forall|i: nat, j: int|
            2 <= i <= n && 0 <= j < i ==> #[trigger] euler_triangle(i, j) <= u64::MAX,
    ensures
        r == (if k >= n {
            0
        } else {
            euler_triangle(n as nat, k as int)
        }),
{
    if k >= n {
        return 0;
    }
    if n == 1 {
        return 1;
    }
    let mut a: Vec<u64> = Vec::new();
    a.push(1);
    let mut i: usize = 2;
    proof {
        assert forall|a2: nat, b: int| 2 <= a2 <= n && 0 <= b < a2 implies #[trigger] euler_triangle(
            a2,
            b,
        ) >= 0 by {
            lemma_euler_nonneg(a2, b);
        }
    }
    while i <= n
        invariant
            2 <= i <= n + 1,
            k < n,
            a@.len() == i - 1,
            forall|x: int| 0 <= x < i - 1 ==> #[trigger] a@[x] == euler_triangle((i - 1) as nat, x),
            forall|a2: nat, b: int| 2 <= a2 <= n && 0 <= b < a2 ==> #[trigger] euler_triangle(a2, b) <= u64::MAX,
            n < usize::MAX,
        decreases n + 1 - i,
    {
        let mut next: Vec<u64> = Vec::new();
        let mut j: usize = 0;
        while j < i
            invariant
                2 <= i <= n,
                j <= i,
                a@.len() == i - 1,
                next@.len() == j,
                forall|x: int| 0 <= x < i - 1 ==> #[trigger] a@[x] == euler_triangle((i - 1) as nat, x),
                forall|x: int| 0 <= x < j ==> #[trigger] next@[x] == euler_triangle(i as nat, x),
                forall|a2: nat, b: int|
                    2 <= a2 <= n && 0 <= b < a2 ==> #[trigger] euler_triangle(a2, b) <= u64::MAX,
            decreases i - j,
        {
            proof {
                lemma_euler_nonneg((i - 1) as nat, j as int);
                lemma_euler_nonneg((i - 1) as nat, j - 1);
                assert(euler_triangle(i as nat, j as int) <= u64::MAX);
                assert((i - 1) * euler_triangle((i - 1) as nat, j as int) <= euler_triangle(i as nat, j as int) || j >= i - 1);
            }
            let left: u64 = if j > 0 {
                a[j - 1]
            } else {
                0
            };
            let right: u64 = if j < i - 1 {
                ((i - 1) as u64) * a[j]
            } else {
                0
            };
            next.push(left + right);
            j = j + 1;
        }
        a = next;
        i = i + 1;
    }
    a[k]
}

proof fn lemma_euler_nonneg(i: nat, j: int)
    ensures
        euler_triangle(i, j) >= 0,
    decreases i,
{
    if i > 1 {
        lemma_euler_nonneg((i - 1) as nat, j - 1);
        lemma_euler_nonneg((i - 1) as nat, j);
        assert((i - 1) * euler_triangle((i - 1) as nat, j) >= 0) by (nonlinear_arith)
            requires
                i >= 1,
                euler_triangle((i - 1) as nat, j) >= 0,
        ;
    }
}

/// The triangle built by `bell_number`: row zero is `1`; in row `i`, entry `j < i` is `i`
/// times entry `j` of the row above plus entry `j - 1` of the row above, and entry `i` is
/// zero.
pub open spec fn bell_triangle(i: nat, j: int) -> int
    decreases i,
{
    if i == 0 {
        if j == 0 {
            1
        } else {
            0
        }
    } else if 0 <= j < i {
        i * bell_triangle((i - 1) as nat, j) + (if j > 0 {
            bell_triangle((i - 1) as nat, j - 1)
        } else {
            0
        })
    } else {
        0
    }
}

proof fn lemma_bell_nonneg(i: nat, j: int)
    ensures
        bell_triangle(i, j) >= 0,
    decreases i,
{
    if i > 0 {
        lemma_bell_nonneg((i - 1) as nat, j - 1);
        lemma_bell_nonneg((i - 1) as nat, j);
        assert(i * bell_triangle((i - 1) as nat, j) >= 0) by (nonlinear_arith)
            requires
                i >= 1,
                bell_triangle((i - 1) as nat, j) >= 0,
        ;
    }
}

/// The last entry of row `n` of that triangle: one for `n == 0` and zero otherwise, since
/// the last entry of every later row is never written.
pub fn bell_number(n: usize) -> (r: u64)
    requires
        n < usize::MAX,
        forall|i: nat, j: int| 1 <= i <= n && 0 <= j < i ==> #[trigger] bell_triangle(i, j) <= u64::MAX,
    ensures
        r == bell_triangle(n as nat, n as int),
        r == (if n == 0 {
            1u64
        } else {
            0u64
        }),
{
    if n == 0 {
        return 1;
    }
    let mut b: Vec<u64> = Vec::new();
    b.push(1);
    let mut i: usize = 1;
    while i <= n
        invariant
            1 <= i <= n + 1,
            n < usize::MAX,
            b@.len() == i,
            forall|x: int| 0 <= x < i ==> #[trigger] b@[x] == bell_triangle((i - 1) as nat, x),
            forall|a2: nat, c: int| 1 <= a2 <= n && 0 <= c < a2 ==> #[trigger] bell_triangle(a2, c) <= u64::MAX,
        decreases n + 1 - i,
    {
        let mut next: Vec<u64> = Vec::new();
        let mut j: usize = 0;
        while j < i
            invariant
                1 <= i <= n,
                n < usize::MAX,
                j <= i,
                b@.len() == i,
                next@.len() == j,
                forall|x: int| 0 <= x < i ==> #[trigger] b@[x] == bell_triangle((i - 1) as nat, x),
                forall|x: int| 0 <= x < j ==> #[trigger] next@[x] == bell_triangle(i as nat, x),
                forall|a2: nat, c: int|
                    1 <= a2 <= n && 0 <= c < a2 ==> #[trigger] bell_triangle(a2, c) <= u64::MAX,
            decreases i - j,
        {
            proof {
                lemma_bell_nonneg((i - 1) as nat, j as int);
                lemma_bell_nonneg((i - 1) as nat, j - 1);
                assert(bell_triangle(i as nat, j as int) <= u64::MAX);
                assert(b[j as int] * i == i * bell_triangle((i - 1) as nat, j as int)) by (nonlinear_arith)
                    requires
                        b[j as int] == bell_triangle((i - 1) as nat, j as int),
                ;
            }
            let left: u64 = if j > 0 {
                b[j - 1]
            } else {
                0
            };
            let v = b[j] * (i as u64) + left;
            next.push(v);
            j = j + 1;
        }
        next.push(0);
        b = next;
        i = i + 1;
    }
    b[n]
}

/// The number of partitions of `j` into parts no larger than `i`.
pub open spec fn parts(j: int, i: int) -> nat
    decreases i, j,
    when j >= 0 && i >= 0
{
    if j == 0 {
        1
    } else if i == 0 {
        0
    } else {
        parts(j, i - 1) + (if j >= i {
            parts(j - i, i)
        } else {
            0
        })
    }
}

/// The number of partitions of `j`.
pub open spec fn partition_count(j: int) -> nat {
    parts(j, j)
}

/// Allowing larger parts never lowers the count, and parts above `j` add nothing.
proof fn lemma_parts_monotone(j: int, i: int, i2: int)
    requires
        0 <= j,
        0 <= i <= i2,
    ensures
        parts(j, i) <= parts(j, i2),
        i >= j ==> parts(j, i) == parts(j, i2),
    decreases i2,
{
    if i < i2 {
        lemma_parts_monotone(j, i, i2 - 1);
    }
}

/// The partition counts of `0..=n`, by adding the parts `1, 2, ..., n` one size at a time.
pub fn partitions_gen(n: usize) -> (r: Vec<u64>)
    requires
        n < usize::MAX,
        forall|j: int| 0 <= j <= n ==> #[trigger] partition_count(j) <= u64::MAX,
    ensures
        r@.len() == n + 1,
        forall|j: int| 0 <= j <= n ==> #[trigger] r@[j] == partition_count(j),
{
    let mut p: Vec<u64> = Vec::new();
    let mut x: usize = 0;
    while x <= n
        invariant
            x <= n + 1,
            n < usize::MAX,
            p@.len() == x,
            forall|y: int| 0 <= y < x ==> #[trigger] p@[y] == parts(y, 0),
        decreases n + 1 - x,
    {
        p.push(if x == 0 {
            1
        } else {
            0
        });
        x = x + 1;
    }
    let mut i: usize = 1;
    while i <= n
        invariant
            1 <= i <= n + 1,
            n < usize::MAX,
            p@.len() == n + 1,
            forall|y: int| 0 <= y <= n ==> #[trigger] p@[y] == parts(y, i - 1),
            forall|y: int| 0 <= y <= n ==> #[trigger] partition_count(y) <= u64::MAX,
        decreases n + 1 - i,
    {
        let mut j: usize = i;
        while j <= n
            invariant
                1 <= i <= j <= n + 1,
                i <= n,
                n < usize::MAX,
                p@.len() == n + 1,
                forall|y: int| 0 <= y < j ==> #[trigger] p@[y] == parts(y, i as int),
                forall|y: int| j <= y <= n ==> #[trigger] p@[y] == parts(y, i - 1),
                forall|y: int| 0 <= y <= n ==> #[trigger] partition_count(y) <= u64::MAX,
            decreases n + 1 - j,
        {
            proof {
                lemma_parts_monotone(j as int, i as int, j as int);
                assert(partition_count(j as int) <= u64::MAX);
                assert(parts(j as int, i as int) <= u64::MAX);
                if j - i < i {
                    lemma_parts_monotone((j - i) as int, i - 1, i as int);
                }
            }
            let v = p[j] + p[j - i];
            p.set(j, v);
            j = j + 1;
        }
        proof {
            assert forall|y: int| 0 <= y <= n implies #[trigger] p@[y] == parts(y, i as int) by {
                if y < i {
                    lemma_parts_monotone(y, i - 1, i as int);
                }
            }
        }
        i = i + 1;
    }
    proof {
        assert forall|y: int| 0 <= y <= n implies #[trigger] p@[y] == partition_count(y) by {
            lemma_parts_monotone(y, y, n as int);
        }
    }
    p
}

/// The number of partitions of `n`.
pub fn partitions(n: usize) -> (r: u64)
    requires
        n < usize::MAX,
        forall|j: int| 0 <= j <= n ==> #[trigger] partition_count(j) <= u64::MAX,
    ensures
        r == partition_count(n as int),
{
    let p = partitions_gen(n);
    p[n]
}

} // verus!

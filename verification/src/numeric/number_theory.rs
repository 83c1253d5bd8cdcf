//! Number theory on `i64`: greatest common divisors, primality, factorisation and
//! divisor functions.
use vstd::prelude::*;
use vstd::arithmetic::div_mod::{lemma_fundamental_div_mod, lemma_mod_multiples_basic};
use crate::numeric::divisor_counting::{
    lemma_divisor_count_from_counts, lemma_totient_from_counts, num_divisors, totient,
};

verus! {

/// Absolute value.
pub open spec fn abs(a: int) -> int {
    if a < 0 {
        -a
    } else {
        a
    }
}

/// The remainder of Rust's `%`: it takes the sign of the dividend and the magnitude
/// `|a| mod |b|`.
pub open spec fn rem(a: int, b: int) -> int {
    if a >= 0 {
        a % b
    } else {
        -((-a) % b)
    }
}

/// The value computed by Euclid's algorithm as written with Rust's `%`: `|a|` once `b`
/// is zero, else the same for `b` and `a % b`.
pub open spec fn gcd_spec(a: int, b: int) -> int
    decreases abs(b),
{
    if b == 0 {
        abs(a)
    } else {
        gcd_spec(b, rem(a, b))
    }
}

/// Euclid's algorithm on `i64` meets no overflow: it never takes `i64::MIN.abs()` nor
/// `i64::MIN % -1`.
pub open spec fn gcd_defined(a: int, b: int) -> bool
    decreases abs(b),
{
    if b == 0 {
        a != i64::MIN
    } else {
        !(a == i64::MIN && b == -1) && gcd_defined(b, rem(a, b))
    }
}

/// `n` is prime: greater than one, and no number from two to `n - 1` divides it.
pub open spec fn is_prime_spec(n: int) -> bool {
    n > 1 && forall|d: int| 2 <= d < n ==> #[trigger] (n % d) != 0
}

/// No number from two to `k - 1` divides `n`.
pub open spec fn no_divisor_below(n: int, k: int) -> bool {
    forall|d: int| 2 <= d < k ==> #[trigger] (n % d) != 0
}

/// The largest `i64` whose square is an `i64`.
pub open spec fn sqrt_max() -> int {
    3037000499
}

/// The remainder of Rust's `%` has the magnitude of a Euclidean remainder and stays below
/// the divisor.
proof fn lemma_rem_bound(a: int, b: int)
    requires
        b != 0,
    ensures
        abs(rem(a, b)) < abs(b),
        abs(rem(a, b)) == abs(a) % b,
{
}

/// Euclid's value is never negative, and is zero only for two zeros.
pub proof fn lemma_gcd_sign(a: int, b: int)
    ensures
        gcd_spec(a, b) >= 0,
        gcd_spec(a, b) == 0 <==> (a == 0 && b == 0),
    decreases abs(b),
{
    if b != 0 {
        lemma_rem_bound(a, b);
        lemma_gcd_sign(b, rem(a, b));
    }
}

/// If `b` divides `a` and `a` divides `n`, then `b` divides `n`.
pub proof fn lemma_divides_trans(b: int, a: int, n: int)
    requires
        b > 0,
        a > 0,
        a % b == 0,
        n % a == 0,
    ensures
        n % b == 0,
{
    lemma_fundamental_div_mod(a, b);
    lemma_fundamental_div_mod(n, a);
    let k = a / b;
    let m = n / a;
    assert(n == (k * m) * b) by (nonlinear_arith)
        requires
            a == b * k,
            n == a * m,
    ;
    lemma_mod_multiples_basic(k * m, b);
}

/// A number with no divisor below `k`, where `k * k` exceeds it, is prime.
pub proof fn lemma_prime_from_small_divisors(n: int, k: int)
    requires
        n > 1,
        k >= 2,
        k * k > n,
        no_divisor_below(n, k),
    ensures
        is_prime_spec(n),
{
    assert forall|d: int| 2 <= d < n implies #[trigger] (n % d) != 0 by {
        if d >= k && n % d == 0 {
            lemma_fundamental_div_mod(n, d);
            let q = n / d;
            assert(n == d * q);
            assert(q >= 2) by (nonlinear_arith)
                requires
                    n == d * q,
                    d < n,
                    d >= 2,
            ;
            assert(q < k) by (nonlinear_arith)
                requires
                    n == d * q,
                    d >= k,
                    k * k > n,
                    k >= 2,
                    q >= 2,
            ;
            assert(n == q * d) by (nonlinear_arith)
                requires
                    n == d * q,
            ;
            lemma_mod_multiples_basic(d, q);
            assert(n % q == 0);
        }
    }
}

/// Absolute value of an `i64` other than `i64::MIN`.
pub fn abs_i64(a: i64) -> (r: i64)
    requires
        a != i64::MIN,
    ensures
        r == abs(a as int),
{
    if a < 0 {
        -a
    } else {
        a
    }
}

/// Euclid's algorithm on `i64` never overflows when neither argument is `i64::MIN`.
pub proof fn lemma_gcd_defined_without_min(a: int, b: int)
    requires
        i64::MIN < a <= i64::MAX,
        i64::MIN < b <= i64::MAX,
    ensures
        gcd_defined(a, b),
    decreases abs(b),
{
    if b != 0 {
        lemma_rem_bound(a, b);
        lemma_gcd_defined_without_min(b, rem(a, b));
    }
}

/// Greatest common divisor by Euclid's algorithm, always non-negative.
pub fn gcd(a: i64, b: i64) -> (r: i64)
    requires
        gcd_defined(a as int, b as int),
    ensures
        r == gcd_spec(a as int, b as int),
        r >= 0,
    decreases abs(b as int),
{
    proof {
        lemma_gcd_sign(a as int, b as int);
    }
    if b == 0 {
        abs_i64(a)
    } else {
        proof {
            lemma_rem_bound(a as int, b as int);
        }
        gcd(b, a % b)
    }
}

/// Least common multiple: `|a * b| / gcd(a, b)`, and zero when either is zero.
pub fn lcm(a: i64, b: i64) -> (r: i64)
    requires
        a != 0 && b != 0 ==> {
            &&& i64::MIN < a * b <= i64::MAX
            &&& gcd_defined(a as int, b as int)
        },
    ensures
        r == (if a == 0 || b == 0 {
            0
        } else {
            abs(a * b) / gcd_spec(a as int, b as int)
        }),
{
    if a == 0 || b == 0 {
        0
    } else {
        let g = gcd(a, b);
        proof {
            lemma_gcd_sign(a as int, b as int);
        }
        abs_i64(a * b) / g
    }
}

/// Whether `gcd(a, b)` is one.
pub fn is_coprime(a: i64, b: i64) -> (r: bool)
    requires
        gcd_defined(a as int, b as int),
    ensures
        r == (gcd_spec(a as int, b as int) == 1),
{
    gcd(a, b) == 1
}

/// Divisors of `n` that are multiples of 2 or 3 cannot exist when 2 and 3 do not divide it.
proof fn lemma_no_multiple_divides(n: int, f: int, d: int)
    requires
        n > 0,
        f > 0,
        d > 0,
        n % f != 0,
        d % f == 0,
    ensures
        n % d != 0,
{
    if n % d == 0 {
        lemma_divides_trans(f, d, n);
    }
}

/// Trial division by 2, 3 and the numbers `6k ± 1`.
pub fn is_prime(n: i64) -> (r: bool)
    requires
        n < sqrt_max() * sqrt_max() || !is_prime_spec(n as int),
    ensures
        r == is_prime_spec(n as int),
{
    if n <= 1 {
        false
    } else if n <= 3 {
        true
    } else if n % 2 == 0 || n % 3 == 0 {
        assert(!is_prime_spec(n as int)) by {
            if n % 2 == 0 {
                assert(n % 2 == 0);
            } else {
                assert(n % 3 == 0);
            }
        }
        false
    } else {
        let mut i: i64 = 5;
        assert(no_divisor_below(n as int, 5)) by {
            assert forall|d: int| 2 <= d < 5 implies #[trigger] (n as int % d) != 0 by {
                if d == 4 {
                    lemma_no_multiple_divides(n as int, 2, 4);
                }
            }
        }
        loop
            invariant
                5 <= i <= sqrt_max(),
                i % 6 == 5,
                n > 3,
                n % 2 != 0,
                n % 3 != 0,
                no_divisor_below(n as int, i as int),
                n < sqrt_max() * sqrt_max() || !is_prime_spec(n as int),
            ensures
                5 <= i,
                i * i > n,
                no_divisor_below(n as int, i as int),
            decreases sqrt_max() - i,
        {
            assert(i * i <= sqrt_max() * sqrt_max()) by (nonlinear_arith)
                requires
                    0 <= i <= sqrt_max(),
            ;
            if i * i > n {
                break;
            }
            if n % i == 0 || n % (i + 2) == 0 {
                assert(!is_prime_spec(n as int)) by {
                    if n % i == 0 {
                        assert(n as int % i as int == 0);
                        assert(i < n) by (nonlinear_arith)
                            requires
                                i * i <= n,
                                i >= 5,
                        ;
                    } else {
                        assert(n as int % (i + 2) as int == 0);
                        assert(i + 2 < n) by (nonlinear_arith)
                            requires
                                i * i <= n,
                                i >= 5,
                        ;
                    }
                }
                return false;
            }
            proof {
                let ii = i as int;
                assert(no_divisor_below(n as int, ii + 6)) by {
                    assert forall|d: int| 2 <= d < ii + 6 implies #[trigger] (n as int % d) != 0 by {
                        if d == ii + 1 || d == ii + 3 || d == ii + 5 {
                            assert(d % 2 == 0);
                            lemma_no_multiple_divides(n as int, 2, d);
                        } else if d == ii + 4 {
                            assert(d % 3 == 0);
                            lemma_no_multiple_divides(n as int, 3, d);
                        }
                    }
                }
                if ii + 6 > sqrt_max() {
                    assert(ii == sqrt_max());
                    assert(n >= sqrt_max() * sqrt_max());
                    assert((ii + 6) * (ii + 6) > n) by (nonlinear_arith)
                        requires
                            ii == sqrt_max(),
                            n <= i64::MAX,
                    ;
                    lemma_prime_from_small_divisors(n as int, ii + 6);
                    assert(false);
                }
                assert(i <= n) by (nonlinear_arith)
                    requires
                        i * i <= n,
                        i >= 5,
                ;
            }
            i = i + 6;
        }
        proof {
            lemma_prime_from_small_divisors(n as int, i as int);
        }
        true
    }
}

/// `x` with every factor two divided out (`x` itself when odd or not positive).
pub open spec fn odd_part(x: int) -> int
    decreases x,
{
    if x > 0 && x % 2 == 0 {
        odd_part(x / 2)
    } else {
        x
    }
}

/// The product of the elements of `s` other than 2.
pub open spec fn product_without_twos(s: Seq<i64>) -> int
    decreases s.len(),
{
    if s.len() == 0 {
        1
    } else if s.last() == 2 {
        product_without_twos(s.drop_last())
    } else {
        product_without_twos(s.drop_last()) * s.last()
    }
}

/// `s` never decreases.
pub open spec fn nondecreasing(s: Seq<i64>) -> bool {
    forall|i: int, j: int| 0 <= i < j < s.len() ==> s[i] <= s[j]
}

/// Dividing a multiple of `m` by a divisor `d` of `m` leaves a multiple of `m / d`, which
/// is positive and, for `d >= 2`, smaller than `m`.
proof fn lemma_div_keeps_divisor(x: int, m: int, d: int)
    requires
        m > 0,
        d > 0,
        x % m == 0,
        m % d == 0,
    ensures
        x % (m / d) == 0,
        m / d > 0,
        d >= 2 ==> m / d < m,
        m % (m / d) == 0,
{
    lemma_fundamental_div_mod(m, d);
    let q = m / d;
    assert(q > 0) by (nonlinear_arith)
        requires
            m == d * q,
            m > 0,
            d > 0,
    ;
    assert(m == d * q);
    assert(d >= 2 ==> q < m) by (nonlinear_arith)
        requires
            m == d * q,
            q > 0,
    ;
    assert(m == q * d) by (nonlinear_arith)
        requires
            m == d * q,
    ;
    lemma_mod_multiples_basic(d, q);
    lemma_divides_trans(q, m, x);
}

/// The distinct factor 2 (when `n` is even) and then the odd prime factors of `n` with
/// their multiplicity, ascending; the loop stops at the square root of what is left, which
/// is then prime or one.
pub fn prime_factors(n: i64) -> (r: Vec<i64>)
    requires
        n != 0,
        n != i64::MIN,
        abs(n as int) < sqrt_max() * sqrt_max() || exists|d: int|
            2 <= d < sqrt_max() && #[trigger] (abs(n as int) % d) == 0,
    ensures
        nondecreasing(r@),
        forall|k: int| 0 <= k < r@.len() ==> is_prime_spec(#[trigger] r@[k] as int),
        (abs(n as int) % 2 == 0) == (r@.len() > 0 && r@[0] == 2),
        forall|k: int| 0 < k < r@.len() ==> #[trigger] r@[k] != 2,
        product_without_twos(r@) == odd_part(abs(n as int)),
{
    let ghost an = abs(n as int);
    let mut m: i64 = abs_i64(n);
    let mut factors: Vec<i64> = Vec::new();
    if m % 2 == 0 {
        factors.push(2);
        assert(is_prime_spec(2));
        while m % 2 == 0
            invariant
                m >= 1,
                an > 0,
                an % (m as int) == 0,
                m <= an,
                m == an ==> m % 2 == 0,
                odd_part(m as int) == odd_part(an),
                factors@ == seq![2i64],
            decreases m,
        {
            proof {
                lemma_div_keeps_divisor(an, m as int, 2);
            }
            m = m / 2;
        }
        assert(product_without_twos(factors@) == 1) by {
            assert(factors@.drop_last() =~= Seq::<i64>::empty());
            assert(factors@.last() == 2);
            reveal_with_fuel(product_without_twos, 2);
        }
    }
    assert(an % (m as int) == 0);
    assert(odd_part(m as int) == m);
    assert(product_without_twos(factors@) == 1);
    assert(product_without_twos(factors@) * m == odd_part(an));
    let mut i: i64 = 3;
    loop
        invariant
            3 <= i <= sqrt_max(),
            i % 2 == 1,
            m >= 1,
            m % 2 == 1,
            an == abs(n as int),
            an > 0,
            an % (m as int) == 0,
            m <= an,
            product_without_twos(factors@) * m == odd_part(an),
            no_divisor_below(m as int, i as int),
            m == an ==> no_divisor_below(an, i as int),
            nondecreasing(factors@),
            forall|k: int| 0 <= k < factors@.len() ==> is_prime_spec(#[trigger] factors@[k] as int),
            forall|k: int| 0 <= k < factors@.len() ==> #[trigger] factors@[k] < i,
            (an % 2 == 0) == (factors@.len() > 0 && factors@[0] == 2),
            forall|k: int| 0 < k < factors@.len() ==> #[trigger] factors@[k] != 2,
            an < sqrt_max() * sqrt_max() || exists|d: int|
                2 <= d < sqrt_max() && #[trigger] (an % d) == 0,
        ensures
            3 <= i,
            m >= 1,
            m % 2 == 1,
            i * i > m,
            product_without_twos(factors@) * m == odd_part(an),
            no_divisor_below(m as int, i as int),
            nondecreasing(factors@),
            forall|k: int| 0 <= k < factors@.len() ==> is_prime_spec(#[trigger] factors@[k] as int),
            forall|k: int| 0 <= k < factors@.len() ==> #[trigger] factors@[k] < i,
            (an % 2 == 0) == (factors@.len() > 0 && factors@[0] == 2),
            forall|k: int| 0 < k < factors@.len() ==> #[trigger] factors@[k] != 2,
        decreases sqrt_max() - i,
    {
        assert(i * i <= sqrt_max() * sqrt_max()) by (nonlinear_arith)
            requires
                0 <= i <= sqrt_max(),
        ;
        if i * i > m {
            break;
        }
        proof {
            if i == sqrt_max() {
                assert(m >= sqrt_max() * sqrt_max());
                if an >= sqrt_max() * sqrt_max() {
                    let d = choose|d: int| 2 <= d < sqrt_max() && #[trigger] (an % d) == 0;
                    assert(an % d == 0);
                    assert(m != an);
                    lemma_fundamental_div_mod(an, m as int);
                    assert(an >= 2 * m) by (nonlinear_arith)
                        requires
                            an == m * (an / (m as int)),
                            m < an,
                            m >= 1,
                    ;
                }
                assert(false);
            }
        }
        let ghost m_head = m;
        let ghost len_head = factors@.len();
        while m % i == 0
            invariant
                3 <= i < sqrt_max(),
                i % 2 == 1,
                m >= 1,
                m % 2 == 1,
                an > 0,
                an % (m as int) == 0,
                m <= m_head,
                m_head <= an,
                m == m_head || m < an,
                m_head == an ==> no_divisor_below(an, i as int),
                product_without_twos(factors@) * m == odd_part(an),
                no_divisor_below(m as int, i as int),
                nondecreasing(factors@),
                factors@.len() >= len_head,
                forall|k: int| 0 <= k < factors@.len() ==> is_prime_spec(#[trigger] factors@[k] as int),
                forall|k: int| 0 <= k < factors@.len() ==> #[trigger] factors@[k] <= i,
                (an % 2 == 0) == (factors@.len() > 0 && factors@[0] == 2),
                forall|k: int| 0 < k < factors@.len() ==> #[trigger] factors@[k] != 2,
            decreases m,
        {
            proof {
                assert(is_prime_spec(i as int)) by {
                    assert forall|d: int| 2 <= d < i implies #[trigger] ((i as int) % d) != 0 by {
                        if (i as int) % d == 0 {
                            lemma_divides_trans(d, i as int, m as int);
                        }
                    }
                }
                lemma_div_keeps_divisor(an, m as int, i as int);
                assert((m / i) % 2 == 1) by {
                    if (m / i) % 2 == 0 {
                        lemma_divides_trans(2, m / i, m as int);
                    }
                }
                assert forall|d: int| 2 <= d < i implies #[trigger] (((m / i) as int) % d) != 0 by {
                    if ((m / i) as int) % d == 0 {
                        lemma_divides_trans(d, (m / i) as int, m as int);
                    }
                }
                lemma_fundamental_div_mod(m as int, i as int);
                assert(product_without_twos(factors@.push(i)) == product_without_twos(factors@) * i) by {
                    assert(factors@.push(i).drop_last() =~= factors@);
                }
                assert((product_without_twos(factors@) * i) * (m / i) == product_without_twos(
                    factors@,
                ) * m) by (nonlinear_arith)
                    requires
                        m == i * (m / i),
                ;
            }
            factors.push(i);
            m = m / i;
        }
        proof {
            assert forall|d: int| 2 <= d < i + 2 implies #[trigger] ((m as int) % d) != 0 by {
                if d == i + 1 {
                    if (m as int) % d == 0 {
                        assert(d % 2 == 0);
                        lemma_divides_trans(2, d, m as int);
                    }
                }
            }
            if m == an {
                assert(m == m_head);
                assert forall|d: int| 2 <= d < i + 2 implies #[trigger] (an % d) != 0 by {
                    assert((m as int) % d != 0);
                }
            }
        }
        i = i + 2;
    }
    if m > 1 {
        proof {
            lemma_prime_from_small_divisors(m as int, i as int);
            if m < i {
                assert((m as int) % (m as int) == 0);
            }
            assert(product_without_twos(factors@.push(m)) == product_without_twos(factors@) * m) by {
                assert(factors@.push(m).drop_last() =~= factors@);
            }
        }
        factors.push(m);
    } else {
        assert(product_without_twos(factors@) * 1 == product_without_twos(factors@));
    }
    factors
}

/// No `d >= 2` with `d * d <= j` divides `j`.
pub open spec fn no_small_square_divisor(j: int, bound: int) -> bool {
    forall|d: int| 2 <= d < bound && d * d <= j ==> #[trigger] (j % d) != 0
}

/// A number of at least two is prime exactly when no `d >= 2` with `d * d <= j` divides it.
proof fn lemma_prime_iff_no_square_divisor(j: int, bound: int)
    requires
        j >= 2,
        bound * bound > j,
        bound >= 2,
    ensures
        is_prime_spec(j) == no_small_square_divisor(j, bound),
{
    if is_prime_spec(j) {
        assert forall|d: int| 2 <= d < bound && d * d <= j implies #[trigger] (j % d) != 0 by {
            assert(d < j) by (nonlinear_arith)
                requires
                    d >= 2,
                    d * d <= j,
            ;
        }
    } else if no_small_square_divisor(j, bound) {
        let d = choose|d: int| 2 <= d < j && #[trigger] (j % d) == 0;
        lemma_fundamental_div_mod(j, d);
        let q = j / d;
        assert(j == d * q);
        assert(q >= 2) by (nonlinear_arith)
            requires
                j == d * q,
                d < j,
                d >= 2,
        ;
        assert(j == q * d) by (nonlinear_arith)
            requires
                j == d * q,
        ;
        lemma_mod_multiples_basic(d, q);
        if d <= q {
            assert(d * d <= j) by (nonlinear_arith)
                requires
                    j == d * q,
                    d <= q,
                    d >= 2,
            ;
            assert(d < bound) by (nonlinear_arith)
                requires
                    d * d <= j,
                    bound * bound > j,
                    d >= 2,
                    bound >= 2,
            ;
        } else {
            assert(q * q <= j) by (nonlinear_arith)
                requires
                    j == d * q,
                    q < d,
                    q >= 2,
            ;
            assert(q < bound) by (nonlinear_arith)
                requires
                    q * q <= j,
                    bound * bound > j,
                    q >= 2,
                    bound >= 2,
            ;
            assert(j % q == 0);
        }
    }
}

/// All primes up to `n`, ascending, by the sieve of Eratosthenes.
pub fn sieve_of_eratosthenes(n: usize) -> (r: Vec<usize>)
    requires
        n < isize::MAX,
    ensures
        forall|a: int, b: int| 0 <= a < b < r@.len() ==> r@[a] < r@[b],
        forall|k: int| 0 <= k < r@.len() ==> #[trigger] r@[k] <= n && is_prime_spec(r@[k] as int),
        forall|p: int| 0 <= p <= n && is_prime_spec(p) ==> r@.contains(p as usize),
{
    let mut r: Vec<usize> = Vec::new();
    if n < 2 {
        return r;
    }
    let mut marks: Vec<bool> = Vec::new();
    let mut k: usize = 0;
    while k <= n
        invariant
            k <= n + 1,
            n < isize::MAX,
            marks@.len() == k,
            forall|j: int| 0 <= j < k ==> #[trigger] marks@[j] == (j >= 2),
        decreases n + 1 - k,
    {
        marks.push(k >= 2);
        k = k + 1;
    }
    let mut i: usize = 2;
    while i <= n / i
        invariant
            2 <= i,
            2 <= n < isize::MAX,
            (i - 1) * (i - 1) <= n,
            marks@.len() == n + 1,
            forall|j: int|
                0 <= j <= n ==> #[trigger] marks@[j] == (j >= 2 && no_small_square_divisor(
                    j,
                    i as int,
                )),
        decreases n + 1 - i,
    {
        assert(i * i <= n) by (nonlinear_arith)
            requires
                i <= n / i,
                i >= 2,
        ;
        if marks[i] {
            let mut j: usize = i * i;
            let ghost before = marks@;
            assert(j as int - (i as int) * (i as int) == 0);
            assert((j - i * i) % (i as int) == 0);
            while j <= n
                invariant
                    2 <= i <= n,
                    i * i <= n < isize::MAX,
                    i * i <= j <= n + i,
                    (j - i * i) % (i as int) == 0,
                    marks@.len() == n + 1,
                    before.len() == n + 1,
                    forall|x: int|
                        0 <= x <= n ==> #[trigger] marks@[x] == (before[x] && !(i * i <= x < j
                            && x % (i as int) == 0)),
                decreases n + i - j,
            {
                marks.set(j, false);
                proof {
                    let ii = i as int;
                    let jj = j as int;
                    let q = (jj - ii * ii) / ii;
                    lemma_fundamental_div_mod(jj - ii * ii, ii);
                    assert(jj - ii * ii == ii * q);
                    assert(jj == (q + ii) * ii) by (nonlinear_arith)
                        requires
                            jj - ii * ii == ii * q,
                    ;
                    assert forall|x: int| jj < x < jj + ii implies #[trigger] (x % ii) != 0 by {
                        vstd::arithmetic::div_mod::lemma_fundamental_div_mod_converse_mod(
                            x,
                            ii,
                            q + ii,
                            x - jj,
                        );
                    }
                    assert((jj + ii) - ii * ii == (q + 1) * ii) by (nonlinear_arith)
                        requires
                            jj - ii * ii == ii * q,
                    ;
                    lemma_mod_multiples_basic(q + 1, ii);
                    assert(jj == (q + ii) * ii) by (nonlinear_arith)
                        requires
                            jj - ii * ii == ii * q,
                    ;
                    lemma_mod_multiples_basic(q + ii, ii);
                    assert(jj % ii == 0);
                }
                j = j + i;
            }
            proof {
                assert forall|x: int| 0 <= x <= n implies #[trigger] marks@[x] == (x >= 2
                    && no_small_square_divisor(x, i + 1)) by {
                    if i * i <= x && x % (i as int) == 0 {
                        assert(!no_small_square_divisor(x, i + 1));
                    } else {
                        if x >= 2 && no_small_square_divisor(x, i as int) {
                            assert forall|d: int| 2 <= d < i + 1 && d * d <= x implies #[trigger] (x % d) != 0 by {
                                if d == i {
                                    assert(i * i <= x);
                                }
                            }
                        }
                    }
                }
            }
        } else {
            proof {
                let ghost ii = i as int;
                assert(!no_small_square_divisor(ii, ii));
                let d = choose|d: int| 2 <= d < ii && d * d <= ii && #[trigger] (ii % d) == 0;
                assert forall|x: int| 0 <= x <= n implies #[trigger] marks@[x] == (x >= 2
                    && no_small_square_divisor(x, i + 1)) by {
                    if x >= 2 && no_small_square_divisor(x, ii) && x % ii == 0 && ii * ii <= x {
                        lemma_divides_trans(d, ii, x);
                        assert(d * d <= x) by (nonlinear_arith)
                            requires
                                d * d <= ii,
                                ii * ii <= x,
                                ii >= 2,
                        ;
                    }
                    if x >= 2 && no_small_square_divisor(x, ii) {
                        assert forall|e: int| 2 <= e < ii + 1 && e * e <= x implies #[trigger] (x % e) != 0 by {
                            if e == ii && x % ii == 0 {
                                lemma_divides_trans(d, ii, x);
                                assert(d * d <= x) by (nonlinear_arith)
                                    requires
                                        d * d <= ii,
                                        ii * ii <= x,
                                        ii >= 2,
                                ;
                            }
                        }
                    }
                }
            }
        }
        i = i + 1;
    }
    assert(i * i > n) by (nonlinear_arith)
        requires
            i > n / i,
            i >= 2,
    ;
    let mut j: usize = 0;
    while j <= n
        invariant
            j <= n + 1,
            2 <= i,
            i * i > n,
            n < isize::MAX,
            marks@.len() == n + 1,
            forall|x: int|
                0 <= x <= n ==> #[trigger] marks@[x] == (x >= 2 && no_small_square_divisor(
                    x,
                    i as int,
                )),
            forall|a: int, b: int| 0 <= a < b < r@.len() ==> r@[a] < r@[b],
            forall|k: int| 0 <= k < r@.len() ==> #[trigger] r@[k] < j && is_prime_spec(r@[k] as int),
            forall|p: int| 0 <= p < j && is_prime_spec(p) ==> r@.contains(p as usize),
        decreases n + 1 - j,
    {
        proof {
            if j >= 2 {
                lemma_prime_iff_no_square_divisor(j as int, i as int);
            }
        }
        if marks[j] {
            let ghost old_r = r@;
            r.push(j);
            proof {
                assert forall|p: int| 0 <= p < j + 1 && is_prime_spec(p) implies r@.contains(p as usize) by {
                    if p == j {
                        assert(r@[old_r.len() as int] == j);
                    } else {
                        assert(old_r.contains(p as usize));
                        let t = choose|t: int| 0 <= t < old_r.len() && old_r[t] == p as usize;
                        assert(r@[t] == old_r[t]);
                    }
                }
            }
        }
        j = j + 1;
    }
    r
}

/// Quotient of Rust's `/`, rounded toward zero: the Euclidean quotient for a non-negative
/// dividend, and the negated quotient of the negated dividend otherwise.
pub open spec fn quot(a: int, b: int) -> int {
    if a >= 0 {
        a / b
    } else {
        -((-a) / b)
    }
}

/// The pair `(t, r)` that the extended Euclidean loop of `modular_inverse` ends with, from
/// the state `(t, new_t, r, new_r)`.
pub open spec fn inverse_loop(t: int, new_t: int, r: int, new_r: int) -> (int, int)
    decreases abs(new_r),
{
    if new_r == 0 {
        (t, r)
    } else {
        let q = quot(r, new_r);
        inverse_loop(new_t, t - q * new_t, new_r, rem(r, new_r))
    }
}

/// Every step of that loop stays within `i64`.
pub open spec fn inverse_loop_fits(t: int, new_t: int, r: int, new_r: int) -> bool
    decreases abs(new_r),
{
    if new_r == 0 {
        true
    } else {
        let q = quot(r, new_r);
        &&& !(r == i64::MIN && new_r == -1)
        &&& i64::MIN <= q * new_t <= i64::MAX
        &&& i64::MIN <= t - q * new_t <= i64::MAX
        &&& inverse_loop_fits(new_t, t - q * new_t, new_r, rem(r, new_r))
    }
}

/// What `modular_inverse(a, m)` returns: `None` when the final remainder exceeds one, else
/// the final coefficient, moved up by `m` when negative.
pub open spec fn modular_inverse_spec(a: int, m: int) -> Option<int> {
    let (t, r) = inverse_loop(0, 1, m, a);
    if r > 1 {
        None
    } else if t < 0 {
        Some(t + m)
    } else {
        Some(t)
    }
}

proof fn lemma_quot_rem(a: int, b: int)
    requires
        b != 0,
    ensures
        a == b * quot(a, b) + rem(a, b),
        abs(rem(a, b)) < abs(b),
        a >= 0 && b > 0 ==> rem(a, b) >= 0,
        abs(quot(a, b)) <= abs(a),
        abs(b) >= 2 ==> 2 * abs(quot(a, b)) <= abs(a),
        a >= 0 ==> 0 <= rem(a, b) <= a,
        a < 0 ==> a <= rem(a, b) <= 0,
        b * quot(a, b) == a - rem(a, b),
{
    if a >= 0 {
        lemma_fundamental_div_mod(a, b);
        assert(abs(a / b) <= a && (abs(b) >= 2 ==> 2 * abs(a / b) <= a) && a % b <= a) by (nonlinear_arith)
            requires
                a == b * (a / b) + a % b,
                0 <= a % b < abs(b),
                a >= 0,
                b != 0,
        ;
    } else {
        lemma_fundamental_div_mod(-a, b);
        assert(a == b * (-((-a) / b)) + (-((-a) % b))) by (nonlinear_arith)
            requires
                -a == b * ((-a) / b) + (-a) % b,
        ;
        assert(abs((-a) / b) <= -a && (abs(b) >= 2 ==> 2 * abs((-a) / b) <= -a) && (-a) % b <= -a) by (nonlinear_arith)
            requires
                -a == b * ((-a) / b) + (-a) % b,
                0 <= (-a) % b < abs(b),
                a < 0,
                b != 0,
        ;
    }
}

/// The extended Euclidean loop on non-negative remainders keeps its coefficients of
/// alternating sign with `|t| * new_r + |new_t| * r == m`, so no coefficient exceeds `m`.
proof fn lemma_inverse_loop_bounded(t: int, new_t: int, r: int, new_r: int, m: int)
    requires
        r >= 0,
        new_r >= 0,
        t * new_t <= 0,
        abs(t) * new_r + abs(new_t) * r == m,
        abs(t) <= m,
        abs(new_t) <= m,
        m <= i64::MAX,
    ensures
        inverse_loop_fits(t, new_t, r, new_r),
        abs(inverse_loop(t, new_t, r, new_r).0) <= m,
    decreases new_r,
{
    if new_r != 0 {
        lemma_fundamental_div_mod(r, new_r);
        let q = r / new_r;
        let rr = r % new_r;
        assert(quot(r, new_r) == q);
        assert(rem(r, new_r) == rr);
        let nt2 = t - q * new_t;
        assert(q >= 0 && 0 <= rr < new_r) by (nonlinear_arith)
            requires
                r == new_r * q + rr,
                0 <= rr < new_r,
                r >= 0,
                new_r > 0,
        ;
        assert(abs(nt2) == abs(t) + q * abs(new_t) && new_t * nt2 <= 0
            && abs(q * new_t) == q * abs(new_t)) by (nonlinear_arith)
            requires
                t * new_t <= 0,
                q >= 0,
                nt2 == t - q * new_t,
        ;
        assert(abs(new_t) * rr + abs(nt2) * new_r == m) by (nonlinear_arith)
            requires
                abs(t) * new_r + abs(new_t) * r == m,
                abs(nt2) == abs(t) + q * abs(new_t),
                r == new_r * q + rr,
        ;
        assert(abs(nt2) <= m && q * abs(new_t) <= abs(nt2)) by (nonlinear_arith)
            requires
                abs(new_t) * rr + abs(nt2) * new_r == m,
                abs(nt2) == abs(t) + q * abs(new_t),
                new_r >= 1,
                rr >= 0,
                abs(t) >= 0,
                abs(new_t) >= 0,
        ;
        lemma_inverse_loop_bounded(new_t, nt2, new_r, rr, m);
    }
}

/// For `0 <= a` and `1 <= m`, both within `i64`, `modular_inverse(a, m)` meets its
/// precondition: no step of the loop, nor the final correction, leaves `i64`.
pub proof fn lemma_modular_inverse_inputs(a: int, m: int)
    requires
        0 <= a <= i64::MAX,
        1 <= m <= i64::MAX,
    ensures
        inverse_loop_fits(0, 1, m, a),
        ({
            let (t, g) = inverse_loop(0, 1, m, a);
            g <= 1 && t < 0 ==> i64::MIN <= t + m <= i64::MAX
        }),
{
    assert(abs(0) * a + abs(1) * m == m) by (nonlinear_arith);
    assert(0 * 1 <= 0) by (nonlinear_arith);
    lemma_inverse_loop_bounded(0, 1, m, a, m);
}

/// The inverse of `a` modulo `m` by the extended Euclidean algorithm: `None` when the
/// algorithm's final remainder exceeds one; for `a >= 0` and `m > 1`, `Some(x)` with
/// `a * x` congruent to one exactly when `gcd(m, a) == 1`.
pub fn modular_inverse(a: i64, m: i64) -> (r: Option<i64>)
    requires
        inverse_loop_fits(0, 1, m as int, a as int),
        ({
            let (t, g) = inverse_loop(0, 1, m as int, a as int);
            g <= 1 && t < 0 ==> i64::MIN <= t + m <= i64::MAX
        }),
    ensures
        r matches Some(x) ==> modular_inverse_spec(a as int, m as int) == Some(x as int),
        r is None ==> modular_inverse_spec(a as int, m as int) is None,
        a >= 0 && m > 1 ==> (r is Some <==> gcd_spec(m as int, a as int) == 1),
        a >= 0 && m > 1 ==> (r matches Some(x) ==> (a * x) % (m as int) == 1),
{
    let mut t: i64 = 0;
    let mut new_t: i64 = 1;
    let mut r: i64 = m;
    let mut new_r: i64 = a;
    let ghost mut k1: int = 0;
    let ghost mut k2: int = 0;
    proof {
        assert(0 * a - m == -1 * m);
        assert(1 * a - a == 0 * m);
        k1 = -1;
    }
    while new_r != 0
        invariant
            inverse_loop_fits(t as int, new_t as int, r as int, new_r as int),
            inverse_loop(t as int, new_t as int, r as int, new_r as int) == inverse_loop(
                0,
                1,
                m as int,
                a as int,
            ),
            t * a - r == k1 * m,
            new_t * a - new_r == k2 * m,
            a >= 0 && m > 1 ==> r >= 0 && new_r >= 0,
            a >= 0 && m > 1 ==> gcd_spec(r as int, new_r as int) == gcd_spec(m as int, a as int),
        decreases abs(new_r as int),
    {
        let ghost t0 = t as int;
        let ghost nt0 = new_t as int;
        let ghost r0 = r as int;
        let ghost nr0 = new_r as int;
        proof {
            lemma_quot_rem(r0, nr0);
        }
        let q = r / new_r;
        assert(q == quot(r0, nr0));
        let temp_t = t - q * new_t;
        t = new_t;
        new_t = temp_t;
        assert(q * new_r == r0 - rem(r0, nr0)) by (nonlinear_arith)
            requires
                nr0 * q == r0 - rem(r0, nr0),
                new_r == nr0,
        ;
        let temp_r = r - q * new_r;
        r = new_r;
        new_r = temp_r;
        proof {
            let nk = k1 - q * k2;
            assert(new_t * a - new_r == nk * m) by (nonlinear_arith)
                requires
                    new_t == t0 - q * nt0,
                    new_r == r0 - q * nr0,
                    t0 * a - r0 == k1 * m,
                    nt0 * a - nr0 == k2 * m,
                    nk == k1 - q * k2,
            ;
            k1 = k2;
            k2 = nk;
        }
    }
    proof {
        lemma_gcd_sign(m as int, a as int);
    }
    if r > 1 {
        return None;
    }
    proof {
        if a >= 0 && m > 1 {
            assert(r == 1);
            let x: int = if t < 0 { t + m } else { t as int };
            let k: int = if t < 0 { k1 + a } else { k1 };
            assert(a * x == k * m + 1) by (nonlinear_arith)
                requires
                    t * a - r == k1 * m,
                    r == 1,
                    x == (if t < 0 { t + m } else { t as int }),
                    k == (if t < 0 { k1 + a } else { k1 }),
            ;
            vstd::arithmetic::div_mod::lemma_fundamental_div_mod_converse_mod(a * x, m as int, k, 1);
        }
    }
    if t < 0 {
        Some(t + m)
    } else {
        Some(t)
    }
}

/// The sum of the divisors of `n` among `1..=k`.
pub open spec fn divisor_sum_upto(n: int, k: int) -> int
    decreases k,
{
    if k <= 0 {
        0
    } else {
        divisor_sum_upto(n, k - 1) + (if n % k == 0 {
            k
        } else {
            0
        })
    }
}

/// The sum of all positive divisors of `n`.
pub open spec fn divisor_sum_spec(n: int) -> int {
    divisor_sum_upto(n, n)
}

/// The sum of the divisors `d` of `n` among `1..=k` found once trial division has tried
/// every number below `p`: `d < p` or its partner `n / d < p`.
pub open spec fn paired_sum_upto(n: int, p: int, k: int) -> int
    decreases k,
{
    if k <= 0 {
        0
    } else {
        paired_sum_upto(n, p, k - 1) + paired_term(n, p, k)
    }
}

/// `k` when it divides `n` and it or its partner `n / k` is below `p`, else zero.
pub open spec fn paired_term(n: int, p: int, k: int) -> int {
    if n % k == 0 && (k < p || n / k < p) {
        k
    } else {
        0
    }
}

/// For a divisor `d` of `n`, `n / d == p` exactly when `p` divides `n` and `d == n / p`.
proof fn lemma_partner(n: int, d: int, p: int)
    requires
        n > 0,
        d > 0,
        p > 0,
        n % d == 0,
    ensures
        (n / d == p) <==> (n % p == 0 && d == n / p),
{
    lemma_fundamental_div_mod(n, d);
    if n / d == p {
        assert(n == p * d) by (nonlinear_arith)
            requires
                n == d * (n / d) + 0,
                n / d == p,
        ;
        vstd::arithmetic::div_mod::lemma_fundamental_div_mod_converse_mod(n, p, d, 0);
        vstd::arithmetic::div_mod::lemma_fundamental_div_mod_converse_div(n, p, d, 0);
    }
    if n % p == 0 && d == n / p {
        lemma_fundamental_div_mod(n, p);
        assert(n == p * d + 0) by (nonlinear_arith)
            requires
                n == p * (n / p) + n % p,
                n % p == 0,
                d == n / p,
        ;
        vstd::arithmetic::div_mod::lemma_fundamental_div_mod_converse_div(n, d, p, 0);
    }
}

/// At a single point, one more step of trial division adds `p` and its partner `n / p`.
proof fn lemma_paired_term_step(n: int, p: int, k: int)
    requires
        n > 0,
        p >= 1,
        p * p <= n,
        k >= 1,
    ensures
        paired_term(n, p + 1, k) == paired_term(n, p, k) + (if n % p == 0 && k == p {
            p
        } else {
            0
        }) + (if n % p == 0 && n / p != p && k == n / p {
            n / p
        } else {
            0
        }),
{
    assert(n / p >= p) by {
        vstd::arithmetic::div_mod::lemma_div_is_ordered(p * p, n, p);
        vstd::arithmetic::div_mod::lemma_div_multiples_vanish(p, p);
    }
    if n % p == 0 {
        lemma_div_keeps_divisor(n, n, p);
        assert(n % n == 0);
        vstd::arithmetic::div_mod::lemma_div_by_self(n);
        assert(n / 1 == n);
    }
    if n % k == 0 {
        lemma_partner(n, k, p);
        if k == p {
            assert(n / k >= p);
        }
        if n % p == 0 && k == n / p {
            assert(n / k == p);
        }
    } else {
        if n % p == 0 && k == n / p {
            lemma_div_keeps_divisor(n, n, p);
        }
    }
}

/// One more step of trial division adds `p` and its partner `n / p` (once when equal).
proof fn lemma_paired_step(n: int, p: int, k: int)
    requires
        n > 0,
        p >= 1,
        p * p <= n,
    ensures
        paired_sum_upto(n, p + 1, k) == paired_sum_upto(n, p, k) + (if n % p == 0 && p <= k {
            p
        } else {
            0
        }) + (if n % p == 0 && n / p != p && n / p <= k {
            n / p
        } else {
            0
        }),
    decreases k,
{
    if k > 0 {
        lemma_paired_step(n, p, k - 1);
        lemma_paired_term_step(n, p, k);
    } else {
        assert(p >= 1);
        assert(n / p >= 1) by {
            vstd::arithmetic::div_mod::lemma_div_is_ordered(p * p, n, p);
            vstd::arithmetic::div_mod::lemma_div_multiples_vanish(p, p);
        }
    }
}

/// Once `p * p > n`, every divisor has been found, alone or as a partner.
proof fn lemma_paired_complete(n: int, p: int, k: int)
    requires
        n > 0,
        p >= 1,
        p * p > n,
    ensures
        paired_sum_upto(n, p, k) == divisor_sum_upto(n, k),
    decreases k,
{
    if k > 0 {
        lemma_paired_complete(n, p, k - 1);
        if n % k == 0 && k >= p && n / k >= p {
            lemma_fundamental_div_mod(n, k);
            assert(false) by (nonlinear_arith)
                requires
                    n == k * (n / k) + 0,
                    k >= p,
                    n / k >= p,
                    p >= 1,
                    p * p > n,
            ;
        }
    }
}

/// Partial sums of divisors never exceed the full sum.
proof fn lemma_paired_bounded(n: int, p: int, k: int)
    requires
        k >= 0,
    ensures
        0 <= paired_sum_upto(n, p, k) <= divisor_sum_upto(n, k),
    decreases k,
{
    if k > 0 {
        lemma_paired_bounded(n, p, k - 1);
    }
}

/// The divisor sums up to `k` only grow with `k`.
proof fn lemma_divisor_sum_monotone(n: int, j: int, k: int)
    requires
        0 <= j <= k,
    ensures
        divisor_sum_upto(n, j) <= divisor_sum_upto(n, k),
    decreases k - j,
{
    if j < k {
        lemma_divisor_sum_monotone(n, j, k - 1);
    }
}

/// The sum of all positive divisors of `n` (zero when `n <= 0`), by trial division up to
/// the square root.
pub fn divisor_sum(n: i64) -> (r: i64)
    requires
        n < sqrt_max() * sqrt_max(),
        n > 0 ==> divisor_sum_spec(n as int) <= i64::MAX,
    ensures
        r == (if n <= 0 {
            0
        } else {
            divisor_sum_spec(n as int)
        }),
{
    if n <= 0 {
        return 0;
    }
    let mut result: i64 = 0;
    let mut p: i64 = 1;
    assert(paired_sum_upto(n as int, 1, n as int) == 0) by {
        lemma_paired_bounded(n as int, 1, n as int);
        assert forall|k: int| 0 <= k <= n implies #[trigger] paired_sum_upto(n as int, 1, k) == 0 by {
            lemma_zero_paired(n as int, k);
        }
    }
    loop
        invariant
            1 <= p <= sqrt_max(),
            0 < n < sqrt_max() * sqrt_max(),
            (p - 1) * (p - 1) <= n,
            divisor_sum_spec(n as int) <= i64::MAX,
            result == paired_sum_upto(n as int, p as int, n as int),
        ensures
            p * p > n,
            p >= 1,
            result == paired_sum_upto(n as int, p as int, n as int),
        decreases sqrt_max() - p,
    {
        assert(p * p <= sqrt_max() * sqrt_max()) by (nonlinear_arith)
            requires
                0 <= p <= sqrt_max(),
        ;
        if p * p > n {
            break;
        }
        proof {
            lemma_paired_step(n as int, p as int, n as int);
            lemma_paired_bounded(n as int, p + 1, n as int);
            assert(n / p >= p) by {
                vstd::arithmetic::div_mod::lemma_div_is_ordered(p * p, n as int, p as int);
                vstd::arithmetic::div_mod::lemma_div_multiples_vanish(p as int, p as int);
            }
            assert(n / p <= n) by {
                vstd::arithmetic::div_mod::lemma_div_is_ordered_by_denominator(n as int, 1, p as int);
            }
            if p == sqrt_max() {
                assert(false);
            }
        }
        if n % p == 0 {
            result = result + p;
            if p != n / p {
                result = result + n / p;
            }
        }
        p = p + 1;
    }
    proof {
        lemma_paired_complete(n as int, p as int, n as int);
    }
    result
}

/// With `p == 1` no divisor has been found yet.
proof fn lemma_zero_paired(n: int, k: int)
    requires
        n > 0,
    ensures
        paired_sum_upto(n, 1, k) == 0,
    decreases k,
{
    if k > 0 {
        lemma_zero_paired(n, k - 1);
        if n % k == 0 {
            lemma_fundamental_div_mod(n, k);
            assert(n / k >= 1) by (nonlinear_arith)
                requires
                    n == k * (n / k) + 0,
                    n > 0,
                    k > 0,
            ;
        }
    }
}

/// Whether `n` is positive and the sum of its divisors is `2 * n`.
pub fn is_perfect(n: i64) -> (r: bool)
    requires
        n < sqrt_max() * sqrt_max(),
        n > 0 ==> divisor_sum_spec(n as int) <= i64::MAX,
        n > 0 ==> 2 * n <= i64::MAX,
    ensures
        r == (n > 0 && divisor_sum_spec(n as int) == 2 * n),
{
    n > 0 && divisor_sum(n) == 2 * n
}

/// Whether `n` is positive and the sum of its divisors exceeds `n`.
pub fn is_abundant(n: i64) -> (r: bool)
    requires
        n < sqrt_max() * sqrt_max(),
        n > 0 ==> divisor_sum_spec(n as int) <= i64::MAX,
    ensures
        r == (n > 0 && divisor_sum_spec(n as int) > n),
{
    n > 0 && divisor_sum(n) > n
}

/// Whether `n` is positive and the sum of its divisors is below `n`.
pub fn is_deficient(n: i64) -> (r: bool)
    requires
        n < sqrt_max() * sqrt_max(),
        n > 0 ==> divisor_sum_spec(n as int) <= i64::MAX,
    ensures
        r == (n > 0 && divisor_sum_spec(n as int) < n),
{
    n > 0 && divisor_sum(n) < n
}

/// `x` with every factor `p` divided out.
pub open spec fn strip_factor(x: int, p: int) -> int
    decreases x,
{
    if x > 0 && p > 1 && x % p == 0 {
        proof {
            vstd::arithmetic::div_mod::lemma_div_decreases(x, p);
        }
        strip_factor(x / p, p)
    } else {
        x
    }
}

/// How many times `p` divides `x`.
pub open spec fn multiplicity(x: int, p: int) -> nat
    decreases x,
{
    if x > 0 && p > 1 && x % p == 0 {
        proof {
            vstd::arithmetic::div_mod::lemma_div_decreases(x, p);
        }
        multiplicity(x / p, p) + 1
    } else {
        0
    }
}

/// Trial division of `temp` by `p, p + 1, ...` stops (`p * p > temp`) before `p` reaches
/// the square root of `i64::MAX`, where `p * p` would overflow.
pub open spec fn trial_division_fits(temp: int, p: int) -> bool
    decreases temp, temp - p,
    when temp >= 1 && p >= 2
{
    if p * p > temp {
        true
    } else if p >= sqrt_max() {
        false
    } else if temp % p == 0 {
        proof {
            lemma_strip_factor(temp, p);
        }
        trial_division_fits(strip_factor(temp, p), p + 1)
    } else {
        proof {
            lemma_square_above(temp, p);
        }
        trial_division_fits(temp, p + 1)
    }
}

/// The divisor count by prime powers: for each prime `p` found by trial division of
/// `temp` from `p` on, the factor `multiplicity + 1`; a remaining factor above one counts
/// twice.
pub open spec fn divisor_count_from(temp: int, p: int) -> int
    decreases temp, temp - p,
    when temp >= 1 && p >= 2
{
    if p * p > temp {
        if temp > 1 {
            2
        } else {
            1
        }
    } else if temp % p == 0 {
        proof {
            lemma_strip_factor(temp, p);
        }
        (multiplicity(temp, p) + 1) * divisor_count_from(strip_factor(temp, p), p + 1)
    } else {
        proof {
            lemma_square_above(temp, p);
        }
        divisor_count_from(temp, p + 1)
    }
}

/// Euler's product by trial division of `temp` from `p` on: each prime `q` found scales
/// `result` by `(q - 1) / q`, as does a remaining factor above one.
pub open spec fn totient_from(result: int, temp: int, p: int) -> int
    decreases temp, temp - p,
    when temp >= 1 && p >= 2
{
    if p * p > temp {
        if temp > 1 {
            result / temp * (temp - 1)
        } else {
            result
        }
    } else if temp % p == 0 {
        proof {
            lemma_strip_factor(temp, p);
        }
        totient_from(result / p * (p - 1), strip_factor(temp, p), p + 1)
    } else {
        proof {
            lemma_square_above(temp, p);
        }
        totient_from(result, temp, p + 1)
    }
}

/// `b` raised to the power `e`.
pub open spec fn int_pow(b: int, e: nat) -> int
    decreases e,
{
    if e == 0 {
        1
    } else {
        b * int_pow(b, (e - 1) as nat)
    }
}

/// Powers of a positive base are positive.
pub proof fn lemma_int_pow_positive(b: int, e: nat)
    requires
        b > 0,
    ensures
        int_pow(b, e) >= 1,
    decreases e,
{
    if e > 0 {
        lemma_int_pow_positive(b, (e - 1) as nat);
        assert(b * int_pow(b, (e - 1) as nat) >= 1) by (nonlinear_arith)
            requires
                b >= 1,
                int_pow(b, (e - 1) as nat) >= 1,
        ;
    }
}

/// A number whose square does not exceed `temp` is below `temp`, for numbers of at least two.
pub proof fn lemma_square_above(temp: int, p: int)
    requires
        p >= 2,
        p * p <= temp,
    ensures
        p < temp,
{
    assert(p < temp) by (nonlinear_arith)
        requires
            p * p <= temp,
            p >= 2,
    ;
}

pub proof fn lemma_strip_factor(x: int, p: int)
    requires
        x >= 1,
        p >= 2,
    ensures
        strip_factor(x, p) >= 1,
        strip_factor(x, p) * int_pow(p, multiplicity(x, p)) == x,
        multiplicity(x, p) + 1 <= int_pow(p, multiplicity(x, p)) || multiplicity(x, p) == 0,
        strip_factor(x, p) % p != 0,
        x % p == 0 ==> strip_factor(x, p) < x,
        strip_factor(x, p) <= x,
    decreases x,
{
    if x % p == 0 {
        lemma_div_keeps_divisor(x, x, 1);
        lemma_fundamental_div_mod(x, p);
        let y = x / p;
        assert(y >= 1 && y < x) by (nonlinear_arith)
            requires
                x == p * y + 0,
                x >= 1,
                p >= 2,
        ;
        lemma_strip_factor(y, p);
        let e = multiplicity(y, p);
        assert(int_pow(p, e + 1) == p * int_pow(p, e));
        assert(strip_factor(x, p) * int_pow(p, e + 1) == x) by (nonlinear_arith)
            requires
                strip_factor(x, p) * int_pow(p, e) == y,
                int_pow(p, e + 1) == p * int_pow(p, e),
                x == p * y,
        ;
        assert(int_pow(p, e) >= 1) by {
            vstd::arithmetic::power::lemma_pow_positive(p, e);
        }
        assert(e + 2 <= int_pow(p, e + 1)) by (nonlinear_arith)
            requires
                e + 1 <= int_pow(p, e) || e == 0,
                int_pow(p, e) >= 1,
                int_pow(p, e + 1) == p * int_pow(p, e),
                p >= 2,
                e >= 0,
        ;
    }
}

/// A prime-power count of divisors never exceeds the number.
proof fn lemma_divisor_count_bound(temp: int, p: int)
    requires
        temp >= 1,
        p >= 2,
    ensures
        1 <= divisor_count_from(temp, p) <= temp,
    decreases temp, temp - p,
{
    if p * p > temp {
    } else if temp % p == 0 {
        lemma_strip_factor(temp, p);
        let e = multiplicity(temp, p);
        let st = strip_factor(temp, p);
        lemma_divisor_count_bound(st, p + 1);
        assert((e + 1) * divisor_count_from(st, p + 1) <= temp) by (nonlinear_arith)
            requires
                1 <= divisor_count_from(st, p + 1) <= st,
                e + 1 <= int_pow(p, e) || e == 0,
                st * int_pow(p, e) == temp,
                st >= 1,
                int_pow(p, e) >= 1,
        ;
        assert((e + 1) * divisor_count_from(st, p + 1) >= 1) by (nonlinear_arith)
            requires
                1 <= divisor_count_from(st, p + 1),
                e >= 0,
        ;
    } else {
        assert(p < temp) by (nonlinear_arith)
            requires
                p * p <= temp,
                p >= 2,
        ;
        lemma_divisor_count_bound(temp, p + 1);
    }
}

/// The number of positive divisors of `n` (zero when `n <= 0`), as the product of
/// `multiplicity + 1` over the primes found by trial division.
pub fn divisor_count(n: i64) -> (r: i64)
    requires
        n > 0 ==> trial_division_fits(n as int, 2),
    ensures
        r == (if n <= 0 {
            0
        } else {
            num_divisors(n as int) as int
        }),
{
    if n <= 0 {
        return 0;
    }
    let mut result: i64 = 1;
    let mut p: i64 = 2;
    let mut temp: i64 = n;
    proof {
        lemma_divisor_count_bound(n as int, 2);
    }
    loop
        invariant
            2 <= p <= sqrt_max(),
            1 <= temp <= n,
            1 <= result,
            trial_division_fits(temp as int, p as int),
            result * divisor_count_from(temp as int, p as int) == divisor_count_from(n as int, 2),
            divisor_count_from(n as int, 2) <= n,
        ensures
            p * p > temp,
            1 <= temp,
            result * divisor_count_from(temp as int, p as int) == divisor_count_from(n as int, 2),
            divisor_count_from(n as int, 2) <= n,
        decreases temp, temp - p,
    {
        proof {
            if p >= sqrt_max() && p * p <= temp {
                assert(!trial_division_fits(temp as int, p as int));
            }
        }
        assert(p * p <= sqrt_max() * sqrt_max()) by (nonlinear_arith)
            requires
                2 <= p <= sqrt_max(),
        ;
        if p * p > temp {
            break;
        }
        let ghost temp_head = temp as int;
        proof {
            lemma_square_above(temp as int, p as int);
            assert(p < sqrt_max());
        }
        if temp % p == 0 {
            let mut count: i64 = 0;
            let ghost t0 = temp as int;
            proof {
                lemma_strip_factor(t0, p as int);
                lemma_divisor_count_bound(strip_factor(t0, p as int), p + 1);
            }
            while temp % p == 0
                invariant
                    p >= 2,
                    temp >= 1,
                    count >= 0,
                    count <= t0,
                    strip_factor(temp as int, p as int) == strip_factor(t0, p as int),
                    multiplicity(temp as int, p as int) + count == multiplicity(t0, p as int),
                    t0 <= n,
                decreases temp,
            {
                proof {
                    lemma_fundamental_div_mod(temp as int, p as int);
                    assert(temp / p >= 1 && temp / p < temp) by (nonlinear_arith)
                        requires
                            temp == p * (temp / p) + 0,
                            temp >= 1,
                            p >= 2,
                    ;
                    lemma_strip_factor(temp as int, p as int);
                    lemma_strip_factor(t0, p as int);
                    assert(multiplicity(t0, p as int) <= t0) by {
                        assert(multiplicity(t0, p as int) + 1 <= int_pow(p as int, multiplicity(t0, p as int)) || multiplicity(t0, p as int) == 0);
                        assert(int_pow(p as int, multiplicity(t0, p as int)) <= t0) by (nonlinear_arith)
                            requires
                                strip_factor(t0, p as int) * int_pow(p as int, multiplicity(t0, p as int)) == t0,
                                strip_factor(t0, p as int) >= 1,
                        ;
                    }
                }
                temp = temp / p;
                count = count + 1;
            }
            proof {
                let st = strip_factor(t0, p as int);
                assert(temp == st);
                lemma_strip_factor(t0, p as int);
                assert(count + 1 <= t0) by (nonlinear_arith)
                    requires
                        count + 1 <= int_pow(p as int, multiplicity(t0, p as int)),
                        st * int_pow(p as int, multiplicity(t0, p as int)) == t0,
                        st >= 1,
                ;
                assert(result * divisor_count_from(t0, p as int) == (result * (count + 1)) * divisor_count_from(st, p + 1)) by (nonlinear_arith)
                    requires
                        divisor_count_from(t0, p as int) == (multiplicity(t0, p as int) + 1) * divisor_count_from(st, p + 1),
                        multiplicity(t0, p as int) == count,
                ;
                assert(result * (count + 1) <= n) by (nonlinear_arith)
                    requires
                        (result * (count + 1)) * divisor_count_from(st, p + 1) == divisor_count_from(n as int, 2),
                        divisor_count_from(n as int, 2) <= n,
                        divisor_count_from(st, p + 1) >= 1,
                        result >= 1,
                        count >= 0,
                ;
                assert(result * (count + 1) >= 1) by (nonlinear_arith)
                    requires
                        result >= 1,
                        count >= 0,
                ;
            }
            result = result * (count + 1);
        }
        p = p + 1;
    }
    if temp > 1 {
        assert(result * 2 <= n);
        result = result * 2;
    }
    proof {
        lemma_divisor_count_from_counts(n as int, 2);
    }
    result
}

/// Scaling a non-negative value by `(p - 1) / p`, dividing first, keeps it in `0..=r`.
proof fn lemma_scale_down(r: int, p: int)
    requires
        r >= 0,
        p >= 1,
    ensures
        0 <= r / p * (p - 1) <= r,
{
    lemma_fundamental_div_mod(r, p);
    assert(0 <= r / p * (p - 1) <= r) by (nonlinear_arith)
        requires
            r == p * (r / p) + r % p,
            0 <= r % p < p,
            r >= 0,
            p >= 1,
    ;
}

/// Euler's totient (zero when `n <= 0`): `n` scaled by `(p - 1) / p` for every prime `p`
/// found by trial division, dividing before multiplying.
pub fn euler_totient(n: i64) -> (r: i64)
    requires
        n > 0 ==> trial_division_fits(n as int, 2),
    ensures
        r == (if n <= 0 {
            0
        } else {
            totient(n as int) as int
        }),
{
    if n <= 0 {
        return 0;
    }
    let mut result: i64 = n;
    let mut p: i64 = 2;
    let mut temp: i64 = n;
    loop
        invariant
            2 <= p <= sqrt_max(),
            1 <= temp <= n,
            0 <= result <= n,
            trial_division_fits(temp as int, p as int),
            totient_from(result as int, temp as int, p as int) == totient_from(n as int, n as int, 2),
        ensures
            p * p > temp,
            1 <= temp,
            0 <= result,
            totient_from(result as int, temp as int, p as int) == totient_from(n as int, n as int, 2),
        decreases temp, temp - p,
    {
        assert(p * p <= sqrt_max() * sqrt_max()) by (nonlinear_arith)
            requires
                2 <= p <= sqrt_max(),
        ;
        if p * p > temp {
            break;
        }
        proof {
            lemma_square_above(temp as int, p as int);
        }
        if temp % p == 0 {
            let ghost t0 = temp as int;
            while temp % p == 0
                invariant
                    p >= 2,
                    temp >= 1,
                    strip_factor(temp as int, p as int) == strip_factor(t0, p as int),
                decreases temp,
            {
                proof {
                    lemma_fundamental_div_mod(temp as int, p as int);
                    assert(temp / p >= 1 && temp / p < temp) by (nonlinear_arith)
                        requires
                            temp == p * (temp / p) + 0,
                            temp >= 1,
                            p >= 2,
                    ;
                }
                temp = temp / p;
            }
            proof {
                lemma_scale_down(result as int, p as int);
                lemma_strip_factor(t0, p as int);
            }
            result = result / p * (p - 1);
        }
        p = p + 1;
    }
    if temp > 1 {
        proof {
            lemma_scale_down(result as int, temp as int);
        }
        result = result / temp * (temp - 1);
    }
    proof {
        vstd::arithmetic::div_mod::lemma_fundamental_div_mod_converse(n as int, n as int, 1, 0);
        lemma_totient_from_counts(n as int, n as int, 2);
    }
    result
}

/// `d` divides `x`: `x` is a multiple of `d`.
pub open spec fn divides(d: int, x: int) -> bool {
    exists|k: int| x == #[trigger] (d * k)
}

proof fn lemma_divides_witness(d: int, x: int, k: int)
    requires
        x == d * k,
    ensures
        divides(d, x),
{
}

/// A common divisor of `b` and `r` divides `b * q + r`, and a common divisor of `a` and `b`
/// divides `a - b * q`.
proof fn lemma_divides_combination(c: int, x: int, y: int, q: int)
    requires
        divides(c, x),
        divides(c, y),
    ensures
        divides(c, x * q + y),
        divides(c, y - x * q),
{
    let kx = choose|k: int| x == #[trigger] (c * k);
    let ky = choose|k: int| y == #[trigger] (c * k);
    assert(x * q + y == c * (kx * q + ky)) by (nonlinear_arith)
        requires
            x == c * kx,
            y == c * ky,
    ;
    assert(y - x * q == c * (ky - kx * q)) by (nonlinear_arith)
        requires
            x == c * kx,
            y == c * ky,
    ;
    lemma_divides_witness(c, x * q + y, kx * q + ky);
    lemma_divides_witness(c, y - x * q, ky - kx * q);
}

/// Euclid's value divides both arguments, and every common divisor of the arguments divides
/// it: it is their greatest common divisor.
pub proof fn lemma_gcd_is_greatest_common_divisor(a: int, b: int, c: int)
    ensures
        divides(gcd_spec(a, b), a),
        divides(gcd_spec(a, b), b),
        divides(c, a) && divides(c, b) ==> divides(c, gcd_spec(a, b)),
    decreases abs(b),
{
    if b == 0 {
        let g = abs(a);
        if a >= 0 {
            lemma_divides_witness(g, a, 1);
        } else {
            lemma_divides_witness(g, a, -1);
        }
        lemma_divides_witness(g, 0, 0);
        if divides(c, a) {
            let k = choose|k: int| a == #[trigger] (c * k);
            if a >= 0 {
                lemma_divides_witness(c, g, k);
            } else {
                assert(g == c * (-k)) by (nonlinear_arith)
                    requires
                        a == c * k,
                        g == -a,
                ;
                lemma_divides_witness(c, g, -k);
            }
        }
    } else {
        lemma_quot_rem(a, b);
        let q = quot(a, b);
        let r = rem(a, b);
        lemma_gcd_is_greatest_common_divisor(b, r, c);
        let g = gcd_spec(b, r);
        assert(a == b * q + r);
        lemma_divides_combination(g, b, r, q);
        if divides(c, a) && divides(c, b) {
            lemma_divides_combination(c, b, a, q);
            assert(r == a - b * q);
        }
    }
}

} // verus!

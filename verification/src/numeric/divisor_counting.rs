//! Counting divisors and coprime numbers: for a prime `p` not dividing `s`, `p^m * s` has
//! `m + 1` times as many divisors as `s`, and `p^(m-1) * (p - 1)` times as many numbers
//! coprime to it, so the products that trial division builds are these counts.
use vstd::prelude::*;
use vstd::arithmetic::div_mod::{
    lemma_fundamental_div_mod, lemma_fundamental_div_mod_converse, lemma_mod_multiples_basic,
    lemma_mod_add_multiples_vanish, lemma_small_mod,
};
use crate::numeric::number_theory::{
    divides, divisor_count_from, gcd_spec, rem, totient_from, int_pow, is_prime_spec, lemma_divides_trans,
    lemma_gcd_is_greatest_common_divisor, lemma_gcd_sign, lemma_int_pow_positive,
    lemma_prime_from_small_divisors, lemma_square_above, lemma_strip_factor, multiplicity,
    no_divisor_below, strip_factor,
};

verus! {

/// How many of `1, ..., k` satisfy `f`.
pub open spec fn count_upto(f: spec_fn(int) -> bool, k: int) -> nat
    decreases k,
{
    if k <= 0 {
        0
    } else {
        count_upto(f, k - 1) + (if f(k) {
            1nat
        } else {
            0nat
        })
    }
}

/// The numbers that divide `n`.
pub open spec fn divides_pred(n: int) -> spec_fn(int) -> bool {
    |d: int| n % d == 0
}

/// The number of positive divisors of `n`: how many of `1, ..., n` divide it.
pub open spec fn num_divisors(n: int) -> nat {
    count_upto(divides_pred(n), n)
}

/// Counts of predicates that agree on `1, ..., k` are equal.
proof fn lemma_count_ext(f: spec_fn(int) -> bool, g: spec_fn(int) -> bool, k: int)
    requires
        forall|d: int| 1 <= d <= k ==> #[trigger] f(d) == g(d),
    ensures
        count_upto(f, k) == count_upto(g, k),
    decreases k,
{
    if k > 0 {
        lemma_count_ext(f, g, k - 1);
    }
}

/// A predicate that is the disjoint union of two others counts as their sum.
proof fn lemma_count_split(
    f: spec_fn(int) -> bool,
    g: spec_fn(int) -> bool,
    h: spec_fn(int) -> bool,
    k: int,
)
    requires
        forall|d: int| 1 <= d <= k ==> (#[trigger] f(d) <==> (g(d) || h(d))),
        forall|d: int| 1 <= d <= k ==> !(#[trigger] g(d) && h(d)),
    ensures
        count_upto(f, k) == count_upto(g, k) + count_upto(h, k),
    decreases k,
{
    if k > 0 {
        lemma_count_split(f, g, h, k - 1);
    }
}

/// Numbers past `k` that fail `f` add nothing to the count.
proof fn lemma_count_flat(f: spec_fn(int) -> bool, k: int, j: int)
    requires
        k >= 0,
        j >= 0,
        forall|d: int| k < d <= k + j ==> !#[trigger] f(d),
    ensures
        count_upto(f, k + j) == count_upto(f, k),
    decreases j,
{
    if j > 0 {
        lemma_count_flat(f, k, j - 1);
    }
}

/// `h` on the multiples of `c`.
pub open spec fn scaled(h: spec_fn(int) -> bool, c: int) -> spec_fn(int) -> bool {
    |e: int| h(c * e)
}

/// A predicate that holds only on multiples of `c` counts, up to `c * k`, as its
/// restriction to those multiples counts up to `k`.
proof fn lemma_count_multiples(h: spec_fn(int) -> bool, c: int, k: int)
    requires
        c >= 1,
        k >= 0,
        forall|d: int| 1 <= d <= c * k && #[trigger] h(d) ==> d % c == 0,
    ensures
        count_upto(h, c * k) == count_upto(scaled(h, c), k),
    decreases k,
{
    if k > 0 {
        let base = c * (k - 1);
        assert(c * k == base + c) by (nonlinear_arith)
            requires
                base == c * (k - 1),
        ;
        assert(0 <= base <= c * k) by (nonlinear_arith)
            requires
                base == c * (k - 1),
                k >= 1,
                c >= 1,
        ;
        assert forall|d: int| 1 <= d <= c * (k - 1) && #[trigger] h(d) implies d % c == 0 by {
        }
        lemma_count_multiples(h, c, k - 1);
        assert forall|d: int| base < d <= base + (c - 1) implies !#[trigger] h(d) by {
            let j = d - base;
            assert(d == (k - 1) * c + j) by (nonlinear_arith)
                requires
                    base == c * (k - 1),
                    j == d - base,
            ;
            lemma_fundamental_div_mod_converse(d, c, k - 1, j);
        }
        lemma_count_flat(h, base, c - 1);
        assert(count_upto(h, c * k) == count_upto(h, base + (c - 1)) + (if h(c * k) {
            1nat
        } else {
            0nat
        }));
        assert(scaled(h, c)(k) == h(c * k));
    } else {
        assert(c * k == 0) by (nonlinear_arith)
            requires
                k == 0,
        ;
    }
}

/// A positive number has no divisor above itself.
proof fn lemma_count_beyond(x: int, k: int)
    requires
        x >= 1,
        k >= x,
    ensures
        count_upto(divides_pred(x), k) == num_divisors(x),
    decreases k,
{
    if k > x {
        lemma_count_beyond(x, k - 1);
        lemma_small_mod(x as nat, k as nat);
    }
}

/// For a positive `d`, `d` divides `x` exactly when `x % d` is zero.
proof fn lemma_divides_iff_mod(d: int, x: int)
    requires
        d > 0,
    ensures
        divides(d, x) <==> x % d == 0,
{
    lemma_fundamental_div_mod(x, d);
    if x % d == 0 {
        assert(x == d * (x / d));
    }
    if divides(d, x) {
        let k = choose|k: int| x == #[trigger] (d * k);
        lemma_mod_multiples_basic(k, d);
        assert(k * d == d * k) by (nonlinear_arith);
    }
}

/// Scaling both arguments scales Euclid's value.
proof fn lemma_gcd_scale(k: int, x: int, y: int)
    requires
        k > 0,
        x >= 0,
        y >= 0,
    ensures
        gcd_spec(k * x, k * y) == k * gcd_spec(x, y),
    decreases y,
{
    if y == 0 {
        assert(k * y == 0 && k * x >= 0) by (nonlinear_arith)
            requires
                y == 0,
                k > 0,
                x >= 0,
        ;
    } else {
        lemma_fundamental_div_mod(x, y);
        let q = x / y;
        let r = x % y;
        assert(0 <= r < y);
        assert(k * x == q * (k * y) + k * r && 0 <= k * r < k * y) by (nonlinear_arith)
            requires
                x == y * q + r,
                0 <= r < y,
                k > 0,
        ;
        lemma_fundamental_div_mod_converse(k * x, k * y, q, k * r);
        lemma_gcd_scale(k, y, r);
    }
}

/// A number that the prime `p` does not divide shares no factor with it.
proof fn lemma_gcd_with_prime(u: int, p: int)
    requires
        u >= 1,
        is_prime_spec(p),
        u % p != 0,
    ensures
        gcd_spec(u, p) == 1,
{
    lemma_gcd_is_greatest_common_divisor(u, p, 1);
    lemma_gcd_sign(u, p);
    let g = gcd_spec(u, p);
    lemma_divides_iff_mod(g, p);
    lemma_divides_iff_mod(g, u);
    if g != 1 {
        if g < p {
            assert(p % g != 0);
        } else if g > p {
            lemma_small_mod(p as nat, g as nat);
        }
    }
}

/// A number that the prime `p` does not divide, and that divides `p * t`, divides `t`.
proof fn lemma_prime_cancel(u: int, p: int, t: int)
    requires
        u >= 1,
        is_prime_spec(p),
        u % p != 0,
        t >= 0,
        (p * t) % u == 0,
    ensures
        t % u == 0,
{
    if t > 0 {
        lemma_gcd_with_prime(u, p);
        lemma_gcd_scale(t, u, p);
        lemma_mod_multiples_basic(t, u);
        assert(t * u == u * t && t * p == p * t) by (nonlinear_arith);
        lemma_divides_iff_mod(u, t * u);
        lemma_divides_iff_mod(u, t * p);
        lemma_gcd_is_greatest_common_divisor(t * u, t * p, u);
        lemma_divides_iff_mod(u, t);
    }
}

/// `p * u` divides `p * t` exactly when `u` divides `t`.
proof fn lemma_cancel_factor(p: int, u: int, t: int)
    requires
        p > 0,
        u > 0,
    ensures
        (p * t) % (p * u) == 0 <==> t % u == 0,
{
    assert(p * u > 0) by (nonlinear_arith)
        requires
            p > 0,
            u > 0,
    ;
    if (p * t) % (p * u) == 0 {
        lemma_fundamental_div_mod(p * t, p * u);
        let q = (p * t) / (p * u);
        assert(t == q * u) by (nonlinear_arith)
            requires
                p * t == (p * u) * q + 0,
                p > 0,
        ;
        lemma_mod_multiples_basic(q, u);
    }
    if t % u == 0 {
        lemma_fundamental_div_mod(t, u);
        let q = t / u;
        assert(p * t == q * (p * u)) by (nonlinear_arith)
            requires
                t == u * q + 0,
        ;
        lemma_mod_multiples_basic(q, p * u);
    }
}

/// A divisor of `p^(m+1) * s` that does not divide `p^m * s` is `p^(m+1)` times a divisor of
/// `s`, for a prime `p` that does not divide `s`.
proof fn lemma_new_divisor(p: int, m: nat, s: int, d: int)
    requires
        is_prime_spec(p),
        s >= 1,
        s % p != 0,
        d >= 1,
        (int_pow(p, m + 1) * s) % d == 0,
        (int_pow(p, m) * s) % d != 0,
    ensures
        d % int_pow(p, m + 1) == 0,
        s % (d / int_pow(p, m + 1)) == 0,
    decreases m,
{
    let c = int_pow(p, m);
    let a = c * s;
    lemma_int_pow_positive(p, m);
    assert(int_pow(p, m + 1) == p * c);
    assert(int_pow(p, m + 1) * s == p * a && a >= 1) by (nonlinear_arith)
        requires
            int_pow(p, m + 1) == p * c,
            a == c * s,
            c >= 1,
            s >= 1,
    ;
    if d % p != 0 {
        lemma_prime_cancel(d, p, a);
    } else {
        lemma_fundamental_div_mod(d, p);
        let d1 = d / p;
        assert(d == p * d1);
        assert(d1 >= 1) by (nonlinear_arith)
            requires
                d == p * d1,
                d >= 1,
                p >= 2,
        ;
        lemma_cancel_factor(p, d1, a);
        if m == 0 {
            assert(c == 1);
            assert(int_pow(p, m + 1) == p);
        } else {
            let m1 = (m - 1) as nat;
            let c1 = int_pow(p, m1);
            let a1 = c1 * s;
            assert(c == p * c1);
            assert(a == p * a1) by (nonlinear_arith)
                requires
                    c == p * c1,
                    a == c * s,
                    a1 == c1 * s,
            ;
            lemma_cancel_factor(p, d1, a1);
            assert(m1 + 1 == m);
            lemma_new_divisor(p, m1, s, d1);
            lemma_fundamental_div_mod(d1, c);
            let e = d1 / c;
            assert(d == e * int_pow(p, m + 1) + 0) by (nonlinear_arith)
                requires
                    d == p * d1,
                    d1 == c * e + 0,
                    int_pow(p, m + 1) == p * c,
            ;
            lemma_int_pow_positive(p, m + 1);
            lemma_fundamental_div_mod_converse(d, int_pow(p, m + 1), e, 0);
        }
    }
}

/// The divisors of `p^m * s`, for a prime `p` that does not divide `s`, number `m + 1` times
/// the divisors of `s`.
pub proof fn lemma_num_divisors_prime_power(p: int, m: nat, s: int)
    requires
        is_prime_spec(p),
        s >= 1,
        s % p != 0,
    ensures
        num_divisors(int_pow(p, m) * s) == (m + 1) * num_divisors(s),
    decreases m,
{
    if m == 0 {
        assert(int_pow(p, 0) * s == s);
        assert((m + 1) * num_divisors(s) == num_divisors(s)) by (nonlinear_arith)
            requires
                m == 0,
        ;
    } else {
        let m1 = (m - 1) as nat;
        lemma_num_divisors_prime_power(p, m1, s);
        let c1 = int_pow(p, m1);
        let a = c1 * s;
        let c = int_pow(p, m);
        let b = c * s;
        lemma_int_pow_positive(p, m1);
        assert(c == p * c1);
        assert(b == p * a && a >= 1 && b >= a && c >= 1) by (nonlinear_arith)
            requires
                c == p * c1,
                a == c1 * s,
                b == c * s,
                c1 >= 1,
                s >= 1,
                p >= 2,
        ;
        let f = divides_pred(b);
        let g = divides_pred(a);
        let h = |d: int| d % c == 0 && s % (d / c) == 0;
        assert forall|d: int| 1 <= d <= b implies (#[trigger] f(d) <==> (g(d) || h(d))) by {
            if g(d) {
                lemma_mod_multiples_basic(p, a);
                lemma_divides_trans(d, a, b);
            }
            if h(d) {
                lemma_fundamental_div_mod(d, c);
                let e = d / c;
                assert(e >= 1) by (nonlinear_arith)
                    requires
                        d == c * e + 0,
                        d >= 1,
                        c >= 1,
                ;
                lemma_fundamental_div_mod(s, e);
                let t = s / e;
                assert(b == t * d) by (nonlinear_arith)
                    requires
                        b == c * s,
                        s == e * t + 0,
                        d == c * e + 0,
                ;
                lemma_mod_multiples_basic(t, d);
            }
            if f(d) && !g(d) {
                assert(m1 + 1 == m);
                lemma_new_divisor(p, m1, s, d);
            }
        }
        assert forall|d: int| 1 <= d <= b implies !(#[trigger] g(d) && h(d)) by {
            if g(d) && h(d) {
                lemma_fundamental_div_mod(d, c);
                let e = d / c;
                lemma_fundamental_div_mod(a, d);
                let q = a / d;
                assert(s == (e * q) * p) by (nonlinear_arith)
                    requires
                        a == d * q + 0,
                        d == c * e + 0,
                        c == p * c1,
                        a == c1 * s,
                        c1 >= 1,
                ;
                lemma_mod_multiples_basic(e * q, p);
            }
        }
        lemma_count_split(f, g, h, b);
        lemma_count_beyond(a, b);
        assert forall|d: int| 1 <= d <= c * s && #[trigger] h(d) implies d % c == 0 by {
        }
        lemma_count_multiples(h, c, s);
        assert forall|e: int| 1 <= e <= s implies #[trigger] scaled(h, c)(e) == divides_pred(s)(
            e,
        ) by {
            lemma_fundamental_div_mod_converse(c * e, c, e, 0);
        }
        lemma_count_ext(scaled(h, c), divides_pred(s), s);
        assert(count_upto(g, b) == num_divisors(a));
        assert(count_upto(h, b) == num_divisors(s));
        assert(num_divisors(b) == count_upto(g, b) + count_upto(h, b));
        assert(num_divisors(a) == (m1 + 1) * num_divisors(s));
        assert((m1 + 1) * num_divisors(s) + num_divisors(s) == (m + 1) * num_divisors(s))
            by (nonlinear_arith)
            requires
                m1 + 1 == m,
        ;
    }
}

/// Only one and `q` itself divide a prime `q`, so counting up to `k < q` finds one divisor.
proof fn lemma_count_prime_below(q: int, k: int)
    requires
        is_prime_spec(q),
        1 <= k < q,
    ensures
        count_upto(divides_pred(q), k) == 1,
    decreases k,
{
    if k == 1 {
        lemma_mod_multiples_basic(q, 1);
        assert(count_upto(divides_pred(q), 0) == 0);
    } else {
        lemma_count_prime_below(q, k - 1);
        assert(q % k != 0);
    }
}

/// A prime has two divisors.
proof fn lemma_num_divisors_prime(q: int)
    requires
        is_prime_spec(q),
    ensures
        num_divisors(q) == 2,
{
    lemma_count_prime_below(q, q - 1);
    lemma_mod_multiples_basic(1, q);
}

/// When trial division reaches a divisor `p` of `temp` with no divisor from two to `p - 1`,
/// `p` is prime, `temp` is `p^e * s` with `e >= 1` and `s` the part without `p`, and no
/// number from two to `p` divides `s`.
proof fn lemma_trial_step(temp: int, p: int)
    requires
        temp >= 1,
        p >= 2,
        no_divisor_below(temp, p),
        temp % p == 0,
    ensures
        is_prime_spec(p),
        multiplicity(temp, p) >= 1,
        strip_factor(temp, p) >= 1,
        strip_factor(temp, p) < temp,
        strip_factor(temp, p) % p != 0,
        temp == int_pow(p, multiplicity(temp, p)) * strip_factor(temp, p),
        no_divisor_below(strip_factor(temp, p), p + 1),
{
    lemma_strip_factor(temp, p);
    let s = strip_factor(temp, p);
    let e = multiplicity(temp, p);
    lemma_int_pow_positive(p, e);
    assert forall|d: int| 2 <= d < p implies #[trigger] (p % d) != 0 by {
        if p % d == 0 {
            lemma_divides_trans(d, p, temp);
        }
    }
    assert(temp == int_pow(p, e) * s) by (nonlinear_arith)
        requires
            s * int_pow(p, e) == temp,
    ;
    lemma_mod_multiples_basic(int_pow(p, e), s);
    assert forall|d: int| 2 <= d < p + 1 implies #[trigger] (s % d) != 0 by {
        if s % d == 0 && d < p {
            lemma_divides_trans(d, s, temp);
        }
    }
}

/// Trial division from `p` on, over a number with no divisor from two to `p - 1`,
/// multiplies out to its number of divisors.
pub proof fn lemma_divisor_count_from_counts(temp: int, p: int)
    requires
        temp >= 1,
        p >= 2,
        no_divisor_below(temp, p),
    ensures
        divisor_count_from(temp, p) == num_divisors(temp),
    decreases temp, temp - p,
{
    if p * p > temp {
        if temp > 1 {
            lemma_prime_from_small_divisors(temp, p);
            lemma_num_divisors_prime(temp);
        } else {
            assert(count_upto(divides_pred(1), 0) == 0);
            assert(1int % 1int == 0);
        }
    } else if temp % p == 0 {
        lemma_trial_step(temp, p);
        let s = strip_factor(temp, p);
        lemma_divisor_count_from_counts(s, p + 1);
        lemma_num_divisors_prime_power(p, multiplicity(temp, p), s);
    } else {
        lemma_square_above(temp, p);
        assert forall|d: int| 2 <= d < p + 1 implies #[trigger] (temp % d) != 0 by {
        }
        lemma_divisor_count_from_counts(temp, p + 1);
    }
}

/// The numbers that share no factor with `n`.
pub open spec fn coprime_pred(n: int) -> spec_fn(int) -> bool {
    |k: int| gcd_spec(k, n) == 1
}

/// Euler's totient: how many of `1, ..., n` share no factor with `n`.
pub open spec fn totient(n: int) -> nat {
    count_upto(coprime_pred(n), n)
}

/// A predicate that repeats with period `m` counts, up to `a + m`, its count up to `a`
/// plus its count over one period.
proof fn lemma_count_periodic(f: spec_fn(int) -> bool, m: int, a: int)
    requires
        m >= 1,
        a >= 0,
        forall|k: int, j: int| #![trigger f(k), f(j)] 1 <= k && j == k + m ==> f(k) == f(j),
    ensures
        count_upto(f, a + m) == count_upto(f, a) + count_upto(f, m),
    decreases a,
{
    if a > 0 {
        lemma_count_periodic(f, m, a - 1);
        assert(count_upto(f, a + m) == count_upto(f, (a - 1) + m) + (if f(a + m) {
            1nat
        } else {
            0nat
        }));
        assert(f(a) == f(a + m));
    }
}

/// Over `j` periods a periodic predicate counts `j` times its count over one.
proof fn lemma_count_repeat(f: spec_fn(int) -> bool, m: int, j: int)
    requires
        m >= 1,
        j >= 0,
        forall|k: int, j: int| #![trigger f(k), f(j)] 1 <= k && j == k + m ==> f(k) == f(j),
    ensures
        count_upto(f, j * m) == j * count_upto(f, m),
    decreases j,
{
    if j > 0 {
        lemma_count_repeat(f, m, j - 1);
        assert((j - 1) * m + m == j * m && (j - 1) * m >= 0) by (nonlinear_arith)
            requires
                j >= 1,
                m >= 1,
        ;
        lemma_count_periodic(f, m, (j - 1) * m);
        assert((j - 1) * count_upto(f, m) + count_upto(f, m) == j * count_upto(f, m))
            by (nonlinear_arith);
    } else {
        assert(j * m == 0 && j * count_upto(f, m) == 0) by (nonlinear_arith)
            requires
                j == 0,
        ;
    }
}

/// A common divisor of two or more rules out coprimality.
proof fn lemma_common_divisor(k: int, n: int, d: int)
    requires
        d >= 2,
        k % d == 0,
        n % d == 0,
    ensures
        gcd_spec(k, n) != 1,
{
    lemma_divides_iff_mod(d, k);
    lemma_divides_iff_mod(d, n);
    lemma_gcd_is_greatest_common_divisor(k, n, d);
    lemma_divides_iff_mod(d, 1);
    lemma_small_mod(1, d as nat);
}

/// Numbers that are not coprime, `n` being positive, have a common divisor of two or more:
/// their greatest common divisor.
proof fn lemma_common_divisor_witness(k: int, n: int)
    requires
        n >= 1,
        gcd_spec(k, n) != 1,
    ensures
        gcd_spec(k, n) >= 2,
        k % gcd_spec(k, n) == 0,
        n % gcd_spec(k, n) == 0,
{
    lemma_gcd_sign(k, n);
    lemma_gcd_is_greatest_common_divisor(k, n, 1);
    lemma_divides_iff_mod(gcd_spec(k, n), k);
    lemma_divides_iff_mod(gcd_spec(k, n), n);
}

/// Coprimality with `n` repeats with period `n`.
proof fn lemma_coprime_periodic(k: int, n: int)
    requires
        k >= 0,
        n >= 1,
    ensures
        gcd_spec(k + n, n) == gcd_spec(k, n),
{
    lemma_mod_add_multiples_vanish(k, n);
    assert(rem(k + n, n) == rem(k, n));
}

/// For a prime `p`, `k` is coprime to `p * m` exactly when it is coprime to `m` and `p`
/// does not divide it.
proof fn lemma_coprime_times_prime(k: int, p: int, m: int)
    requires
        is_prime_spec(p),
        m >= 1,
    ensures
        gcd_spec(k, p * m) == 1 <==> (gcd_spec(k, m) == 1 && k % p != 0),
{
    assert(p * m >= 1) by (nonlinear_arith)
        requires
            p >= 2,
            m >= 1,
    ;
    lemma_mod_multiples_basic(p, m);
    assert(p * m == m * p) by (nonlinear_arith);
    lemma_mod_multiples_basic(m, p);
    if gcd_spec(k, m) != 1 {
        lemma_common_divisor_witness(k, m);
        let g = gcd_spec(k, m);
        lemma_divides_trans(g, m, p * m);
        lemma_common_divisor(k, p * m, g);
    }
    if k % p == 0 {
        lemma_common_divisor(k, p * m, p);
    }
    if gcd_spec(k, p * m) != 1 {
        lemma_common_divisor_witness(k, p * m);
        let g = gcd_spec(k, p * m);
        if g % p != 0 {
            lemma_prime_cancel(g, p, m);
            lemma_common_divisor(k, m, g);
        } else {
            lemma_divides_trans(p, g, k);
        }
    }
}

/// For a prime `p` that does not divide `m`, `p * j` is coprime to `m` exactly when `j` is.
proof fn lemma_coprime_scaled(j: int, p: int, m: int)
    requires
        is_prime_spec(p),
        m >= 1,
        m % p != 0,
        j >= 0,
    ensures
        gcd_spec(p * j, m) == 1 <==> gcd_spec(j, m) == 1,
{
    if gcd_spec(j, m) != 1 {
        lemma_common_divisor_witness(j, m);
        let g = gcd_spec(j, m);
        if j > 0 {
            lemma_mod_multiples_basic(p, j);
            lemma_divides_trans(g, j, p * j);
        } else {
            assert(p * j == 0) by (nonlinear_arith)
                requires
                    j == 0,
            ;
        }
        lemma_common_divisor(p * j, m, g);
    }
    if gcd_spec(p * j, m) != 1 {
        lemma_common_divisor_witness(p * j, m);
        let g = gcd_spec(p * j, m);
        if g % p == 0 {
            lemma_divides_trans(p, g, m);
        } else {
            lemma_prime_cancel(g, p, j);
            lemma_common_divisor(j, m, g);
        }
    }
}

/// Multiplying by a prime `p` multiplies the totient by `p` when `p` already divides the
/// number, and by `p - 1` otherwise.
pub proof fn lemma_totient_times_prime(p: int, m: int)
    requires
        is_prime_spec(p),
        m >= 1,
    ensures
        totient(p * m) == (if m % p == 0 {
            p * totient(m)
        } else {
            (p - 1) * totient(m)
        }),
{
    let f = coprime_pred(p * m);
    let g = coprime_pred(m);
    assert forall|k: int, j: int| #![trigger g(k), g(j)] 1 <= k && j == k + m implies g(k) == g(j)
        by {
        lemma_coprime_periodic(k, m);
    }
    assert(p * m == m * p) by (nonlinear_arith);
    lemma_count_repeat(g, m, p);
    if m % p == 0 {
        assert forall|k: int| 1 <= k <= p * m implies #[trigger] f(k) == g(k) by {
            lemma_coprime_times_prime(k, p, m);
            if g(k) && k % p == 0 {
                lemma_common_divisor(k, m, p);
            }
        }
        lemma_count_ext(f, g, p * m);
    } else {
        let h = |k: int| gcd_spec(k, m) == 1 && k % p == 0;
        assert forall|k: int| 1 <= k <= p * m implies (#[trigger] g(k) <==> (f(k) || h(k))) by {
            lemma_coprime_times_prime(k, p, m);
        }
        assert forall|k: int| 1 <= k <= p * m implies !(#[trigger] f(k) && h(k)) by {
            lemma_coprime_times_prime(k, p, m);
        }
        lemma_count_split(g, f, h, p * m);
        assert forall|k: int| 1 <= k <= p * m && #[trigger] h(k) implies k % p == 0 by {
        }
        lemma_count_multiples(h, p, m);
        assert forall|j: int| 1 <= j <= m implies #[trigger] scaled(h, p)(j) == g(j) by {
            lemma_coprime_scaled(j, p, m);
            lemma_mod_multiples_basic(j, p);
            assert(j * p == p * j) by (nonlinear_arith);
        }
        lemma_count_ext(scaled(h, p), g, m);
        assert(p * totient(m) - totient(m) == (p - 1) * totient(m)) by (nonlinear_arith);
    }
}

/// For a prime `p` that does not divide `s`, `p^e * s` with `e >= 1` has `p^(e-1) * (p - 1)`
/// times as many numbers coprime to it as `s` has.
pub proof fn lemma_totient_prime_power(p: int, e: nat, s: int)
    requires
        is_prime_spec(p),
        e >= 1,
        s >= 1,
        s % p != 0,
    ensures
        totient(int_pow(p, e) * s) == int_pow(p, (e - 1) as nat) * (p - 1) * totient(s),
    decreases e,
{
    let e1 = (e - 1) as nat;
    let m = int_pow(p, e1) * s;
    lemma_int_pow_positive(p, e1);
    assert(int_pow(p, e) == p * int_pow(p, e1));
    assert(int_pow(p, e) * s == p * m && m >= 1) by (nonlinear_arith)
        requires
            int_pow(p, e) == p * int_pow(p, e1),
            m == int_pow(p, e1) * s,
            int_pow(p, e1) >= 1,
            s >= 1,
    ;
    lemma_totient_times_prime(p, m);
    if e == 1 {
        assert(int_pow(p, e1) == 1);
        assert(m == s);
        assert(int_pow(p, e1) * (p - 1) * totient(s) == (p - 1) * totient(s)) by (nonlinear_arith)
            requires
                int_pow(p, e1) == 1,
        ;
    } else {
        let e2 = (e1 - 1) as nat;
        assert(int_pow(p, e1) == p * int_pow(p, e2));
        assert(m == (int_pow(p, e2) * s) * p) by (nonlinear_arith)
            requires
                int_pow(p, e1) == p * int_pow(p, e2),
                m == int_pow(p, e1) * s,
        ;
        lemma_mod_multiples_basic(int_pow(p, e2) * s, p);
        lemma_totient_prime_power(p, e1, s);
        assert(p * (int_pow(p, e2) * (p - 1) * totient(s)) == int_pow(p, e1) * (p - 1) * totient(s))
            by (nonlinear_arith)
            requires
                int_pow(p, e1) == p * int_pow(p, e2),
        ;
    }
}

/// One is coprime to itself, and is the only number up to one.
proof fn lemma_totient_one()
    ensures
        totient(1) == 1,
{
    assert(rem(1, 1) == 0);
    assert(gcd_spec(1, 0) == 1);
    assert(gcd_spec(1, 1) == 1);
    assert(count_upto(coprime_pred(1), 0) == 0);
}

/// Euler's product by trial division from `p` on, started from a multiple `result` of `temp`
/// that no number from two to `p - 1` divides, is `result / temp` times the totient of `temp`.
pub proof fn lemma_totient_from_counts(result: int, temp: int, p: int)
    requires
        temp >= 1,
        p >= 2,
        no_divisor_below(temp, p),
        result >= 0,
        result % temp == 0,
    ensures
        totient_from(result, temp, p) == result / temp * totient(temp),
    decreases temp, temp - p,
{
    lemma_fundamental_div_mod(result, temp);
    let q = result / temp;
    if p * p > temp {
        lemma_totient_one();
        if temp > 1 {
            lemma_prime_from_small_divisors(temp, p);
            lemma_small_mod(1, temp as nat);
            lemma_totient_times_prime(temp, 1);
            assert(temp * 1 == temp);
            assert(totient(temp) == temp - 1);
            assert(totient_from(result, temp, p) == result / temp * (temp - 1));
        } else {
            lemma_fundamental_div_mod_converse(result, 1, result, 0);
            assert(result / temp * totient(temp) == result);
        }
    } else if temp % p == 0 {
        lemma_trial_step(temp, p);
        let s = strip_factor(temp, p);
        let e = multiplicity(temp, p);
        let e1 = (e - 1) as nat;
        let c1 = int_pow(p, e1);
        lemma_int_pow_positive(p, e1);
        assert(int_pow(p, e) == p * c1);
        lemma_totient_prime_power(p, e, s);
        let w = c1 * (p - 1) * q;
        let r1 = c1 * s * q;
        assert(result == r1 * p + 0) by (nonlinear_arith)
            requires
                result == temp * q + 0,
                temp == int_pow(p, e) * s,
                int_pow(p, e) == p * c1,
                r1 == c1 * s * q,
        ;
        lemma_fundamental_div_mod_converse(result, p, r1, 0);
        let r2 = r1 * (p - 1);
        assert(r2 == w * s + 0 && r2 >= 0 && q >= 0) by (nonlinear_arith)
            requires
                r2 == r1 * (p - 1),
                r1 == c1 * s * q,
                w == c1 * (p - 1) * q,
                result == temp * q + 0,
                result >= 0,
                temp >= 1,
                c1 >= 1,
                s >= 1,
                p >= 2,
        ;
        lemma_fundamental_div_mod_converse(r2, s, w, 0);
        lemma_totient_from_counts(r2, s, p + 1);
        assert(totient_from(result, temp, p) == totient_from(r2, s, p + 1));
        assert(totient(temp) == c1 * (p - 1) * totient(s));
        assert(q * (c1 * (p - 1) * totient(s)) == w * totient(s)) by (nonlinear_arith)
            requires
                w == c1 * (p - 1) * q,
        ;
    } else {
        lemma_square_above(temp, p);
        assert forall|d: int| 2 <= d < p + 1 implies #[trigger] (temp % d) != 0 by {
        }
        lemma_totient_from_counts(result, temp, p + 1);
    }
}

} // verus!

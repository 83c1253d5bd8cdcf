//! Powers of two and bit counts.
use vstd::prelude::*;

verus! {

/// `n` is a power of two: one, or twice a power of two.
pub open spec fn is_power_of_two_spec(n: int) -> bool
    decreases n,
{
    if n < 1 {
        false
    } else if n == 1 {
        true
    } else {
        n % 2 == 0 && is_power_of_two_spec(n / 2)
    }
}

/// The number of one bits of `v`.
pub open spec fn popcount(v: nat) -> nat
    decreases v,
{
    if v == 0 {
        0
    } else {
        (v % 2) + popcount(v / 2)
    }
}

/// `x & (x - 1)` is zero exactly for the powers of two, among positive numbers.
proof fn lemma_single_bit(x: u64)
    requires
        x > 0,
    ensures
        ((x & ((x - 1) as u64)) == 0) == is_power_of_two_spec(x as int),
    decreases x,
{
    if x == 1 {
        assert((1u64 & ((1u64 - 1) as u64)) == 0) by (bit_vector);
    } else if x % 2 == 1 {
        assert((x & ((x - 1) as u64)) == ((x - 1) as u64)) by (bit_vector)
            requires
                x % 2 == 1,
        ;
    } else {
        let h: u64 = x / 2;
        assert((x & ((x - 1) as u64)) == ((h & ((h - 1) as u64)) * 2)) by (bit_vector)
            requires
                x % 2 == 0,
                x > 1,
                h == x / 2,
        ;
        lemma_single_bit(h);
    }
}

/// Whether `n` is a positive power of two, tested by `n & (n - 1) == 0`.
pub fn is_power_of_2(n: i64) -> (r: bool)
    ensures
        r == is_power_of_two_spec(n as int),
{
    if n <= 0 {
        return false;
    }
    let r = (n & (n - 1)) == 0;
    proof {
        let x = n as u64;
        assert(x > 0);
        assert(((n & ((n - 1) as i64)) == 0) == ((x & ((x - 1) as u64)) == 0)) by (bit_vector)
            requires
                x == n as u64,
                n > 0,
        ;
        lemma_single_bit(x);
    }
    r
}

/// The least power of two not below `n` for `1 <= n <= 2^62`; one for `n <= 0`; and, for a
/// larger `n`, `2^63` cast to `i64`, which is `i64::MIN`.
pub fn next_power_of_2(n: i64) -> (r: i64)
    ensures
        n <= 0 ==> r == 1,
        0 < n <= 0x4000_0000_0000_0000 ==> {
            &&& is_power_of_two_spec(r as int)
            &&& r >= n
            &&& (r == 1 || r / 2 < n)
        },
        n > 0x4000_0000_0000_0000 ==> r == i64::MIN,
{
    if n <= 0 {
        return 1;
    }
    let mut v: u64 = n as u64;
    v -= 1;
    let ghost w0 = v;
    v |= v >> 1;
    let ghost w1 = v;
    v |= v >> 2;
    let ghost w2 = v;
    v |= v >> 4;
    let ghost w3 = v;
    v |= v >> 8;
    let ghost w4 = v;
    v |= v >> 16;
    let ghost w5 = v;
    v |= v >> 32;
    let ghost s = v;
    proof {
        assert(s >= w0 && s < 0x8000_0000_0000_0000 && (s & ((s + 1) as u64)) == 0 && (s == 0 || ((s
            + 1) as u64) / 2 <= w0) && (w0 < 0x4000_0000_0000_0000 ==> s < 0x4000_0000_0000_0000) && (w0
            >= 0x4000_0000_0000_0000 ==> s == 0x7fff_ffff_ffff_ffff)) by (bit_vector)
            requires
                w0 < 0x7fff_ffff_ffff_ffff,
                w1 == w0 | (w0 >> 1),
                w2 == w1 | (w1 >> 2),
                w3 == w2 | (w2 >> 4),
                w4 == w3 | (w3 >> 8),
                w5 == w4 | (w4 >> 16),
                s == w5 | (w5 >> 32),
        ;
    }
    v += 1;
    proof {
        let t = v;
        assert((t & ((t - 1) as u64)) == 0) by (bit_vector)
            requires
                t == ((s + 1) as u64),
                (s & ((s + 1) as u64)) == 0,
                s < 0x8000_0000_0000_0000,
        ;
        lemma_single_bit(t);
        assert((0x8000_0000_0000_0000u64 as i64) == i64::MIN) by (bit_vector);
    }
    v as i64
}

/// The number of one bits in the two's complement representation of `n`.
pub fn bit_count(n: i64) -> (r: i32)
    ensures
        r == popcount((n as u64) as nat),
{
    let ghost x: u64 = n as u64;
    let mut v: u64 = n as u64;
    let mut c: i32 = 0;
    let ghost mut k: u64 = 0;
    assert(x >> 0u64 == x) by (bit_vector);
    while v != 0
        invariant
            c + popcount(v as nat) == popcount(x as nat),
            0 <= c <= k,
            k <= 64,
            v == x >> k,
        decreases v,
    {
        assert(k < 64) by (bit_vector)
            requires
                v == x >> k,
                v != 0,
        ;
        assert((v & 1) == v % 2) by (bit_vector);
        assert((v >> 1) == v / 2) by (bit_vector);
        assert((v >> 1) == x >> ((k + 1) as u64)) by (bit_vector)
            requires
                v == x >> k,
                k < 64,
        ;
        assert(popcount(v as nat) == (v as nat) % 2 + popcount((v as nat) / 2));
        c = c + (v & 1) as i32;
        v = v >> 1;
        proof {
            k = ((k + 1) as u64);
        }
    }
    c
}

} // verus!

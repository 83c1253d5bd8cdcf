//! Numerals: digits of decimal numerals, and numerals in other bases.
use vstd::prelude::*;
use crate::numeric::number_theory::abs;
use crate::text::{decimal, digit_char, digit_value, digits_value, push_decimal, string_of};

verus! {

/// The sum of the digit values of a numeral.
pub open spec fn digit_sum(s: Seq<char>) -> int
    decreases s.len(),
{
    if s.len() == 0 {
        0
    } else {
        digit_sum(s.drop_last()) + digit_value(s.last())
    }
}

/// The sum of the digit values of a numeral, each raised to the power `k`.
pub open spec fn digit_power_sum(s: Seq<char>, k: nat) -> int
    decreases s.len(),
{
    if s.len() == 0 {
        0
    } else {
        digit_power_sum(s.drop_last(), k) + crate::numeric::number_theory::int_pow(
            digit_value(s.last()),
            k,
        )
    }
}

proof fn lemma_digit_char(d: int)
    requires
        0 <= d < 10,
    ensures
        digit_value(digit_char(d)) == d,
        '0' <= digit_char(d) <= '9',
{
}

/// Facts about decimal numerals: digits only, one to nineteen of them below `10^19`, a
/// positive digit sum for a positive number, and the number as their value.
pub proof fn lemma_decimal_digits(n: nat)
    ensures
        decimal(n).len() >= 1,
        n < 10_000_000_000_000_000_000 ==> decimal(n).len() <= 19,
        n < 10 ==> decimal(n).len() == 1,
        forall|i: int| 0 <= i < decimal(n).len() ==> '0' <= #[trigger] decimal(n)[i] <= '9',
        n >= 1 ==> digit_sum(decimal(n)) >= 1,
        digit_sum(decimal(n)) >= 0,
        digits_value(decimal(n)) == n,
    decreases n,
{
    if n >= 10 {
        lemma_decimal_digits(n / 10);
        lemma_digit_char((n % 10) as int);
        let s = decimal(n);
        assert(s.drop_last() =~= decimal(n / 10));
        assert(s.last() == digit_char((n % 10) as int));
        assert(digit_sum(s) == digit_sum(decimal(n / 10)) + (n % 10));
        assert(digits_value(s) == digits_value(decimal(n / 10)) * 10 + (n % 10));
        assert(n < 10_000_000_000_000_000_000 ==> n / 10 < 1_000_000_000_000_000_000);
        if n / 10 < 1_000_000_000_000_000_000 {
            assert(crate::numeric::number_theory::int_pow(10, 18) == 1_000_000_000_000_000_000) by {
                reveal_with_fuel(crate::numeric::number_theory::int_pow, 19);
            }
            lemma_decimal_len_below(n / 10, 18);
        }
    } else {
        lemma_digit_char(n as int);
        let s = decimal(n);
        assert(s.drop_last() =~= Seq::<char>::empty());
        assert(digit_sum(s.drop_last()) == 0);
        assert(s.last() == digit_char(n as int));
        assert(digit_sum(s) == n);
        assert(digits_value(s.drop_last()) == 0);
        assert(digits_value(s) == n);
    }
}

/// A number below `10^k` has at most `k` decimal digits.
proof fn lemma_decimal_len_below(n: nat, k: nat)
    requires
        k >= 1,
        n < crate::numeric::number_theory::int_pow(10, k),
    ensures
        decimal(n).len() <= k,
    decreases k,
{
    if n >= 10 {
        if k == 1 {
            assert(crate::numeric::number_theory::int_pow(10, 1) == 10 * crate::numeric::number_theory::int_pow(10, 0));
        } else {
            assert(crate::numeric::number_theory::int_pow(10, k) == 10 * crate::numeric::number_theory::int_pow(10, (k - 1) as nat));
            assert(n / 10 < crate::numeric::number_theory::int_pow(10, (k - 1) as nat));
            lemma_decimal_len_below(n / 10, (k - 1) as nat);
        }
    }
}

/// The decimal numeral of `|n|`.
fn magnitude_numeral(n: i64) -> (v: Vec<char>)
    requires
        n != i64::MIN,
    ensures
        v@ == decimal(abs(n as int) as nat),
{
    let m: u64 = if n < 0 {
        (-n) as u64
    } else {
        n as u64
    };
    let mut v: Vec<char> = Vec::new();
    push_decimal(&mut v, m);
    assert(v@ =~= decimal(m as nat));
    v
}

/// The number of decimal digits of `|n|`.
pub fn digits(n: i64) -> (r: usize)
    requires
        n != i64::MIN,
    ensures
        r == decimal(abs(n as int) as nat).len(),
{
    let v = magnitude_numeral(n);
    v.len()
}

/// The sum of the decimal digits of `|n|`.
pub fn sum_of_digits(n: i64) -> (r: i64)
    requires
        n != i64::MIN,
    ensures
        r == digit_sum(decimal(abs(n as int) as nat)),
{
    let v = magnitude_numeral(n);
    proof {
        lemma_decimal_digits(abs(n as int) as nat);
    }
    let mut total: i64 = 0;
    let mut i: usize = 0;
    while i < v.len()
        invariant
            i <= v@.len(),
            v@.len() <= 19,
            forall|j: int| 0 <= j < v@.len() ==> '0' <= #[trigger] v@[j] <= '9',
            total == digit_sum(v@.take(i as int)),
            0 <= total <= 9 * i,
        decreases v@.len() - i,
    {
        assert(v@.take(i + 1).drop_last() =~= v@.take(i as int));
        assert('0' <= v@[i as int] <= '9');
        total = total + ((v[i] as u32 as i64) - 48);
        i = i + 1;
    }
    assert(v@.take(v@.len() as int) =~= v@);
    total
}

/// Whether `n` is positive and divisible by the sum of its decimal digits.
pub fn is_harshad(n: i64) -> (r: bool)
    requires
        n != i64::MIN,
    ensures
        r == (n > 0 && (n as int) % digit_sum(decimal(abs(n as int) as nat)) == 0),
{
    if n <= 0 {
        return false;
    }
    let s = sum_of_digits(n);
    proof {
        lemma_decimal_digits(n as nat);
    }
    n % s == 0
}

/// Whether the decimal numeral of `|n|` reads the same backwards.
pub fn is_palindrome(n: i64) -> (r: bool)
    requires
        n != i64::MIN,
    ensures
        r == (decimal(abs(n as int) as nat) == decimal(abs(n as int) as nat).reverse()),
{
    let v = magnitude_numeral(n);
    let len = v.len();
    let mut i: usize = 0;
    while i < len
        invariant
            len == v@.len(),
            v@ == decimal(abs(n as int) as nat),
            i <= len,
            forall|j: int| 0 <= j < i ==> v@[j] == #[trigger] v@[len - 1 - j],
        decreases len - i,
    {
        if v[i] != v[len - 1 - i] {
            assert(v@ != v@.reverse()) by {
                assert(v@.reverse()[i as int] == v@[len - 1 - i]);
                assert(v@.reverse()[i as int] != v@[i as int]);
            }
            assert(decimal(abs(n as int) as nat) != decimal(abs(n as int) as nat).reverse());
            return false;
        }
        i = i + 1;
    }
    assert(v@ =~= v@.reverse());
    true
}

/// The value of the digits of `|n|` read backwards (leading zeros allowed), or zero when it
/// exceeds `i64::MAX`, carrying the sign of `n`.
pub fn reverse_number(n: i64) -> (r: i64)
    requires
        n != i64::MIN,
    ensures
        r == (if digits_value(decimal(abs(n as int) as nat).reverse()) > i64::MAX {
            0int
        } else if n < 0 {
            -(digits_value(decimal(abs(n as int) as nat).reverse()) as int)
        } else if n == 0 {
            0int
        } else {
            digits_value(decimal(abs(n as int) as nat).reverse()) as int
        }),
{
    let v = magnitude_numeral(n);
    proof {
        lemma_decimal_digits(abs(n as int) as nat);
    }
    let ghost rev = v@.reverse();
    let mut value: i64 = 0;
    let mut k: usize = 0;
    let len = v.len();
    while k < len
        invariant
            len == v@.len(),
            v@ == decimal(abs(n as int) as nat),
            rev == v@.reverse(),
            k <= len,
            forall|j: int| 0 <= j < len ==> '0' <= #[trigger] v@[j] <= '9',
            value == digits_value(rev.take(k as int)),
        decreases len - k,
    {
        let c = v[len - 1 - k];
        assert(rev[k as int] == c);
        assert('0' <= c <= '9');
        assert(rev.take(k + 1).drop_last() =~= rev.take(k as int));
        let d: i64 = (c as u32 as i64) - 48;
        if value > (i64::MAX - d) / 10 {
            proof {
                assert forall|j: int| 0 <= j < rev.len() implies '0' <= #[trigger] rev[j] <= '9' by {
                    assert(rev[j] == v@[len - 1 - j]);
                }
                lemma_digits_value_prefix(rev, (k + 1) as int, len as int);
                assert(rev.take(len as int) =~= rev);
                vstd::arithmetic::div_mod::lemma_fundamental_div_mod(i64::MAX - d, 10);
                assert(rev.take(k + 1).last() == c);
                assert(digit_value(c) == d);
                assert(digits_value(rev.take(k + 1)) == digits_value(rev.take(k as int)) * 10 + d);
                assert(digits_value(rev.take(k + 1)) == value * 10 + d);
                assert(value * 10 + d > i64::MAX);
                assert(digits_value(rev) > i64::MAX);
                assert(rev == decimal(abs(n as int) as nat).reverse());
            }
            return 0;
        }
        value = value * 10 + d;
        k = k + 1;
    }
    assert(rev.take(len as int) =~= rev);
    if n < 0 {
        -value
    } else if n == 0 {
        0
    } else {
        value
    }
}

/// The value of a prefix of a digit string never exceeds the value of a longer prefix.
proof fn lemma_digits_value_prefix(s: Seq<char>, j: int, k: int)
    requires
        0 <= j <= k <= s.len(),
        forall|i: int| 0 <= i < s.len() ==> '0' <= #[trigger] s[i] <= '9',
    ensures
        digits_value(s.take(j)) <= digits_value(s.take(k)),
    decreases k - j,
{
    if j < k {
        lemma_digits_value_prefix(s, j, k - 1);
        assert(s.take(k).drop_last() =~= s.take(k - 1));
        assert('0' <= s[k - 1] <= '9');
    }
}

/// Whether `n` equals the sum of its decimal digits each raised to the number of digits.
pub fn is_armstrong(n: i64) -> (r: bool)
    requires
        n >= 0,
        digit_power_sum(decimal(n as nat), decimal(n as nat).len()) <= i64::MAX,
    ensures
        r == (digit_power_sum(decimal(n as nat), decimal(n as nat).len()) == n),
{
    let v = magnitude_numeral(n);
    proof {
        lemma_decimal_digits(n as nat);
    }
    let k: u32 = v.len() as u32;
    let ghost kk: nat = v@.len();
    let mut total: i64 = 0;
    let mut i: usize = 0;
    while i < v.len()
        invariant
            i <= v@.len(),
            kk == v@.len(),
            k == kk,
            v@ == decimal(n as nat),
            forall|j: int| 0 <= j < v@.len() ==> '0' <= #[trigger] v@[j] <= '9',
            total == digit_power_sum(v@.take(i as int), kk),
            digit_power_sum(v@, kk) <= i64::MAX,
        decreases v@.len() - i,
    {
        assert(v@.take(i + 1).drop_last() =~= v@.take(i as int));
        assert('0' <= v@[i as int] <= '9');
        proof {
            lemma_digit_power_sum_prefix(v@, kk, (i + 1) as int, v@.len() as int);
            lemma_digit_power_sum_prefix(v@, kk, i as int, (i + 1) as int);
        }
        let d: i64 = (v[i] as u32 as i64) - 48;
        proof {
            assert(digit_value(v@[i as int]) == d);
            assert(v@.take(i + 1).last() == v@[i as int]);
            assert(digit_power_sum(v@.take(i + 1), kk) == total + crate::numeric::number_theory::int_pow(d as int, kk));
            assert(v@.take(v@.len() as int) =~= v@);
        }
        let p = power_of_digit(d, k, i64::MAX - total);
        total = total + p;
        i = i + 1;
    }
    assert(v@.take(v@.len() as int) =~= v@);
    total == n
}

proof fn lemma_digit_power_sum_prefix(s: Seq<char>, e: nat, j: int, k: int)
    requires
        0 <= j <= k <= s.len(),
        forall|i: int| 0 <= i < s.len() ==> '0' <= #[trigger] s[i] <= '9',
    ensures
        0 <= digit_power_sum(s.take(j), e) <= digit_power_sum(s.take(k), e),
    decreases k,
{
    if k > 0 {
        lemma_digit_power_sum_prefix(s, e, if j < k { j } else { k - 1 }, k - 1);
        assert(s.take(k).drop_last() =~= s.take(k - 1));
        assert('0' <= s[k - 1] <= '9');
        lemma_pow_nonneg(digit_value(s[k - 1]), e);
    }
    assert(s.take(s.len() as int) =~= s);
}

proof fn lemma_pow_nonneg(b: int, e: nat)
    requires
        b >= 0,
    ensures
        crate::numeric::number_theory::int_pow(b, e) >= 0,
        b >= 1 ==> crate::numeric::number_theory::int_pow(b, e) >= 1,
    decreases e,
{
    if e > 0 {
        lemma_pow_nonneg(b, (e - 1) as nat);
        let p = crate::numeric::number_theory::int_pow(b, (e - 1) as nat);
        assert(b * p >= 0 && (b >= 1 ==> b * p >= 1)) by (nonlinear_arith)
            requires
                b >= 0,
                p >= 0,
                b >= 1 ==> p >= 1,
        ;
    }
}

/// `d` to the power `k`, for a digit whose power is at most `limit`.
fn power_of_digit(d: i64, k: u32, limit: i64) -> (r: i64)
    requires
        0 <= d <= 9,
        crate::numeric::number_theory::int_pow(d as int, k as nat) <= limit,
    ensures
        r == crate::numeric::number_theory::int_pow(d as int, k as nat),
{
    let mut r: i64 = 1;
    let mut j: u32 = 0;
    while j < k
        invariant
            j <= k,
            0 <= d <= 9,
            r == crate::numeric::number_theory::int_pow(d as int, j as nat),
            crate::numeric::number_theory::int_pow(d as int, k as nat) <= limit,
            limit <= i64::MAX,
        decreases k - j,
    {
        proof {
            lemma_pow_grows(d as int, (j + 1) as nat, k as nat);
            assert(crate::numeric::number_theory::int_pow(d as int, (j + 1) as nat) == d * crate::numeric::number_theory::int_pow(d as int, j as nat));
            lemma_pow_nonneg(d as int, (j + 1) as nat);
            if d >= 1 {
                assert(crate::numeric::number_theory::int_pow(d as int, (j + 1) as nat) <= crate::numeric::number_theory::int_pow(d as int, k as nat));
            } else {
                assert(crate::numeric::number_theory::int_pow(d as int, (j + 1) as nat) == 0);
            }
            assert(r * d == crate::numeric::number_theory::int_pow(d as int, (j + 1) as nat)) by (nonlinear_arith)
                requires
                    r == crate::numeric::number_theory::int_pow(d as int, j as nat),
                    crate::numeric::number_theory::int_pow(d as int, (j + 1) as nat) == d * crate::numeric::number_theory::int_pow(d as int, j as nat),
            ;
        }
        r = r * d;
        j = j + 1;
    }
    r
}

proof fn lemma_pow_grows(b: int, i: nat, k: nat)
    requires
        0 <= b,
        i <= k,
    ensures
        b >= 1 ==> crate::numeric::number_theory::int_pow(b, i) <= crate::numeric::number_theory::int_pow(b, k),
        b == 0 && i >= 1 ==> crate::numeric::number_theory::int_pow(b, i) == 0,
        crate::numeric::number_theory::int_pow(b, i) == b * crate::numeric::number_theory::int_pow(b, (i - 1) as nat) || i == 0,
    decreases k,
{
    lemma_pow_nonneg(b, i);
    if i < k {
        lemma_pow_grows(b, i, (k - 1) as nat);
        lemma_pow_nonneg(b, (k - 1) as nat);
        let p = crate::numeric::number_theory::int_pow(b, (k - 1) as nat);
        assert(b >= 1 ==> p <= b * p) by (nonlinear_arith)
            requires
                p >= 0,
        ;
    }
    if b == 0 && i >= 1 {
        assert(crate::numeric::number_theory::int_pow(b, i) == 0 * crate::numeric::number_theory::int_pow(b, (i - 1) as nat));
    }
}

/// The character for a digit value in a numeral: `0-9`, then `a`, `b`, ... from ten on,
/// the offset from `a` taken as a byte (modulo 256).
pub open spec fn glyph(d: int) -> char {
    if d < 10 {
        (48 + d) as char
    } else {
        (97 + (d - 10) % 256) as char
    }
}

/// The character code of the digit fits in a byte: below ten, or an offset from `a`
/// (modulo 256) of at most 158.
pub open spec fn digit_fits_byte(d: int) -> bool {
    d < 10 || (d - 10) % 256 <= 158
}

/// The numeral of `n > 0` in base `b`, most significant digit first; empty for zero.
pub open spec fn base_numeral(n: nat, b: nat) -> Seq<char>
    decreases n,
{
    if n == 0 || b < 2 {
        Seq::empty()
    } else {
        proof {
            vstd::arithmetic::div_mod::lemma_div_decreases(n as int, b as int);
        }
        base_numeral(n / b, b).push(glyph((n % b) as int))
    }
}

/// The character code of every digit of `n` in base `b` fits in a byte.
pub open spec fn digits_fit_byte(n: nat, b: nat) -> bool
    decreases n,
{
    if n == 0 || b < 2 {
        true
    } else {
        proof {
            vstd::arithmetic::div_mod::lemma_div_decreases(n as int, b as int);
        }
        digit_fit_byte_of(n, b) && digits_fit_byte(n / b, b)
    }
}

/// The lowest digit of `n` in base `b` fits in a byte.
pub open spec fn digit_fit_byte_of(n: nat, b: nat) -> bool {
    digit_fits_byte((n % b) as int)
}

/// The magnitude of `base` read as a signed 64-bit number, for a base above `i64::MAX`.
pub open spec fn wrapped_base(base: int) -> int {
    0x1_0000_0000_0000_0000 - base
}

/// The numeral of `n` in base `base`: `"0"` for zero, empty for a negative number, else the
/// digits from the most significant, written `0-9` then `a`, `b`, ... . A base above
/// `i64::MAX` is read as a negative `i64`, so only the single digit `n % |base|` is written.
pub fn format_number(n: i64, base: usize) -> (r: String)
    requires
        n > 0 ==> 2 <= base,
        n > 0 && base <= i64::MAX ==> digits_fit_byte(n as nat, base as nat),
        n > 0 && base > i64::MAX ==> digit_fits_byte((n as int) % wrapped_base(base as int)),
    ensures
        r@ == (if n == 0 {
            seq!['0']
        } else if n < 0 {
            Seq::empty()
        } else if base > i64::MAX {
            seq![glyph((n as int) % wrapped_base(base as int))]
        } else {
            base_numeral(n as nat, base as nat)
        }),
{
    if n == 0 {
        let mut z: Vec<char> = Vec::new();
        z.push('0');
        let r = string_of(&z);
        assert(z@ =~= seq!['0']);
        return r;
    }
    if n > 0 && base as u64 > 0x7fff_ffff_ffff_ffffu64 {
        let magnitude: u64 = (0xffff_ffff_ffff_ffffu64 - base as u64) + 1;
        let d: u64 = n as u64 % magnitude;
        let c: char = if d < 10 {
            (48u8 + d as u8) as char
        } else {
            (97u8 + ((d - 10) % 256) as u8) as char
        };
        let mut one: Vec<char> = Vec::new();
        one.push(c);
        assert(one@ =~= seq![glyph((n as int) % wrapped_base(base as int))]);
        return string_of(&one);
    }
    let mut lsb: Vec<char> = Vec::new();
    let mut m: i64 = n;
    if n > 0 {
        let b: i64 = base as i64;
        while m > 0
            invariant
                n > 0,
                2 <= b,
                b == base,
                0 <= m <= n,
                digits_fit_byte(m as nat, b as nat),
                base_numeral(n as nat, b as nat) == base_numeral(m as nat, b as nat) + lsb@.reverse(),
            decreases m,
        {
            let d: usize = (m % b) as usize;
            let c: char = if d < 10 {
                (48u8 + d as u8) as char
            } else {
                (97u8 + ((d - 10) % 256) as u8) as char
            };
            assert(c == glyph(d as int));
            let ghost old_lsb = lsb@;
            lsb.push(c);
            proof {
                assert(lsb@.reverse() =~= seq![c] + old_lsb.reverse());
                assert(base_numeral(m as nat, b as nat) == base_numeral((m / b) as nat, b as nat).push(c));
                assert(base_numeral((m / b) as nat, b as nat).push(c) + old_lsb.reverse() =~= base_numeral(
                    (m / b) as nat,
                    b as nat,
                ) + (seq![c] + old_lsb.reverse()));
            }
            m = m / b;
        }
        assert(base_numeral(0, b as nat) =~= Seq::<char>::empty());
        assert(base_numeral(n as nat, b as nat) =~= lsb@.reverse());
    } else {
        assert(lsb@.reverse() =~= Seq::<char>::empty());
    }
    let mut out: Vec<char> = Vec::new();
    let mut k: usize = lsb.len();
    while k > 0
        invariant
            k <= lsb@.len(),
            out@ == lsb@.reverse().take(lsb@.len() - k),
        decreases k,
    {
        k = k - 1;
        out.push(lsb[k]);
        assert(out@ =~= lsb@.reverse().take(lsb@.len() - k));
    }
    assert(lsb@.reverse().take(lsb@.len() as int) =~= lsb@.reverse());
    string_of(&out)
}

/// The value of a character as a digit: `0-9`, then `a-z` and `A-Z` from ten on.
pub open spec fn char_digit(c: char) -> Option<int> {
    if '0' <= c <= '9' {
        Some(c as int - 48)
    } else if 'a' <= c <= 'z' {
        Some(c as int - 97 + 10)
    } else if 'A' <= c <= 'Z' {
        Some(c as int - 65 + 10)
    } else {
        None
    }
}

/// Reading the first `k` characters of `s` as a numeral in base `b`: `None` at the first
/// character that is no digit or whose digit is not below `b`.
pub open spec fn parse_prefix(s: Seq<char>, b: int, k: int) -> Option<int>
    decreases k,
{
    if k <= 0 {
        Some(0)
    } else {
        match parse_prefix(s, b, k - 1) {
            None => None,
            Some(v) => match char_digit(s[k - 1]) {
                None => None,
                Some(d) => if d >= b {
                    None
                } else {
                    Some(v * b + d)
                },
            },
        }
    }
}

/// The base as `usize as i64` gives it: the base itself up to `i64::MAX`, negative beyond.
pub open spec fn base_as_signed(base: int) -> int {
    if base <= i64::MAX {
        base
    } else {
        -1
    }
}

/// Reads `s` as a numeral in base `base` (digits `0-9`, then letters of either case from
/// ten on): `None` at a character that is no digit or a digit not below the base.
pub fn parse_number(s: &str, base: usize) -> (r: Option<i64>)
    requires
        forall|k: int|
            0 <= k <= s@.len() ==> (#[trigger] parse_prefix(s@, base_as_signed(base as int), k) matches Some(v)
                ==> v <= i64::MAX),
    ensures
        r matches Some(x) ==> parse_prefix(s@, base_as_signed(base as int), s@.len() as int) == Some(
            x as int,
        ),
        r is None ==> parse_prefix(s@, base_as_signed(base as int), s@.len() as int) is None,
{
    let cs = crate::text::chars_of(s);
    let b: i64 = if (base as u64) <= (i64::MAX as u64) {
        base as i64
    } else {
        -1
    };
    let ghost bb = base_as_signed(base as int);
    assert(b == bb);
    let mut result: i64 = 0;
    let mut i: usize = 0;
    while i < cs.len()
        invariant
            cs@ == s@,
            b == bb,
            bb == base_as_signed(base as int),
            i <= cs@.len(),
            parse_prefix(s@, bb, i as int) == Some(result as int),
            result >= 0,
            forall|k: int| 0 <= k <= s@.len() ==> (#[trigger] parse_prefix(s@, bb, k) matches Some(v) ==> v <= i64::MAX),
        decreases cs@.len() - i,
    {
        let c = cs[i];
        let d: i64 = if '0' <= c && c <= '9' {
            (c as u32 as i64) - 48
        } else if 'a' <= c && c <= 'z' {
            (c as u32 as i64) - 97 + 10
        } else if 'A' <= c && c <= 'Z' {
            (c as u32 as i64) - 65 + 10
        } else {
            assert(parse_prefix(s@, bb, i + 1) is None);
            proof {
                lemma_parse_none_stays(s@, bb, i + 1, s@.len() as int);
            }
            return None;
        };
        assert(char_digit(c) == Some(d as int));
        if d >= b {
            assert(parse_prefix(s@, bb, i + 1) is None);
            proof {
                lemma_parse_none_stays(s@, bb, i + 1, s@.len() as int);
            }
            return None;
        }
        assert(parse_prefix(s@, bb, i + 1) == Some(result * b + d));
        assert(result * b + d <= i64::MAX);
        assert(0 <= result * b) by (nonlinear_arith)
            requires
                result >= 0,
                b >= 0,
        ;
        result = result * b + d;
        i = i + 1;
    }
    Some(result)
}

/// Once reading fails, reading more characters fails too.
proof fn lemma_parse_none_stays(s: Seq<char>, b: int, j: int, k: int)
    requires
        0 <= j <= k,
        parse_prefix(s, b, j) is None,
    ensures
        parse_prefix(s, b, k) is None,
    decreases k - j,
{
    if j < k {
        lemma_parse_none_stays(s, b, j, k - 1);
    }
}

} // verus!

//! Fixed-point decimals.
//!
//! A decimal is an integer that counts millionths: `1.5` is `1_500_000`.
//! Sums and differences are exact. Products and quotients are rounded down
//! (toward negative infinity) to the next millionth, and every executable
//! operation says when its result does not fit the integer type it returns.

use vstd::arithmetic::div_mod::lemma_fundamental_div_mod;
use vstd::arithmetic::div_mod::lemma_fundamental_div_mod_converse;
use vstd::prelude::*;

verus! {

/// How many units make one: decimals are counted in millionths.
pub const SCALE: u64 = 1_000_000;

/// The product of two decimals, rounded down.
pub open spec fn product(a: int, b: int) -> int {
    a * b / (SCALE as int)
}

/// The quotient of two decimals, rounded down. Meaningful for `b > 0`.
pub open spec fn quotient(a: int, b: int) -> int {
    a * (SCALE as int) / b
}

/// `r` is the square root of `n`, rounded down.
pub open spec fn is_integer_sqrt(r: int, n: int) -> bool {
    0 <= r && r * r <= n < (r + 1) * (r + 1)
}

/// The square root of `n`, rounded down. Meaningful for `n >= 0`, where
/// `lemma_integer_sqrt_exists` shows that there is one and
/// `lemma_integer_sqrt_unique` that there is no other.
pub open spec fn integer_sqrt(n: int) -> int {
    choose|r: int| is_integer_sqrt(r, n)
}

/// Every number that is not negative has a rounded-down square root, so
/// `integer_sqrt` of it is one: not negative, its square at most the
/// number, and the next square beyond the number.
pub proof fn lemma_integer_sqrt_exists(n: int)
    requires
        n >= 0,
    ensures
        is_integer_sqrt(integer_sqrt(n), n),
    decreases n,
{
    if n == 0 {
        assert(is_integer_sqrt(0, 0));
    } else {
        lemma_integer_sqrt_exists(n - 1);
        let r = integer_sqrt(n - 1);
        if (r + 1) * (r + 1) <= n {
            assert(n < (r + 2) * (r + 2)) by (nonlinear_arith)
                requires
                    0 <= r,
                    n - 1 < (r + 1) * (r + 1),
            ;
            assert(is_integer_sqrt(r + 1, n));
        } else {
            assert(is_integer_sqrt(r, n));
        }
    }
}

/// A number has at most one rounded-down square root, so `integer_sqrt`
/// is whichever number passes `is_integer_sqrt`.
pub proof fn lemma_integer_sqrt_unique(r: int, n: int)
    requires
        is_integer_sqrt(r, n),
    ensures
        integer_sqrt(n) == r,
{
    let s = integer_sqrt(n);
    assert(is_integer_sqrt(s, n));
    if s < r {
        assert((s + 1) * (s + 1) <= r * r) by (nonlinear_arith)
            requires
                0 <= s,
                s + 1 <= r,
        ;
    }
    if r < s {
        assert((r + 1) * (r + 1) <= s * s) by (nonlinear_arith)
            requires
                0 <= r,
                r + 1 <= s,
        ;
    }
}

/// Division rounded down, for a positive divisor.
pub fn floor_div(a: i128, b: i128) -> (q: i128)
    requires
        b > 0,
    ensures
        q == a / b,
{
    if a >= 0 {
        a / b
    } else {
        let m: i128 = -(a + 1);
        let t: i128 = m / b;
        proof {
            lemma_fundamental_div_mod(m as int, b as int);
            assert(a as int == b * (-t - 1) + (b - (m % b) - 1)) by (nonlinear_arith)
                requires
                    m as int == b * t + (m % b),
                    a == -m - 1,
            ;
            lemma_fundamental_div_mod_converse(a as int, b as int, -t - 1, b - (m % b) - 1);
        }
        -t - 1
    }
}

/// The product of two non-negative decimals, or `None` where it exceeds `u64`.
pub fn checked_product(a: u64, b: u64) -> (r: Option<u64>)
    ensures
        r == (if product(a as int, b as int) <= u64::MAX {
            Some(product(a as int, b as int) as u64)
        } else {
            None::<u64>
        }),
{
    assert(0 <= a * b <= u64::MAX * u64::MAX) by (nonlinear_arith);
    let wide: u128 = (a as u128) * (b as u128);
    let scaled: u128 = wide / (SCALE as u128);
    if scaled <= u64::MAX as u128 {
        Some(scaled as u64)
    } else {
        None
    }
}

/// The quotient of two non-negative decimals, or `None` where the divisor
/// is zero or the quotient exceeds `u64`.
pub fn checked_quotient(a: u64, b: u64) -> (r: Option<u64>)
    ensures
        r == (if b != 0 && quotient(a as int, b as int) <= u64::MAX {
            Some(quotient(a as int, b as int) as u64)
        } else {
            None::<u64>
        }),
{
    if b == 0 {
        return None;
    }
    assert(a * SCALE <= u64::MAX * 1_000_000) by (nonlinear_arith)
        requires
            SCALE == 1_000_000,
            a <= u64::MAX,
    ;
    let wide: u128 = (a as u128) * (SCALE as u128);
    let q: u128 = wide / (b as u128);
    if q <= u64::MAX as u128 {
        Some(q as u64)
    } else {
        None
    }
}

/// The largest magnitude that `checked_ratio` accepts as a numerator.
pub const RATIO_LIMIT: i128 = 0x1_0000_0000_0000_0000_0000;

/// The quotient of a signed decimal by a positive one, or `None` where it
/// does not fit `i64`.
pub fn checked_ratio(num: i128, den: u64) -> (r: Option<i64>)
    requires
        den > 0,
        -RATIO_LIMIT <= num <= RATIO_LIMIT,
    ensures
        r == (if i64::MIN <= quotient(num as int, den as int) <= i64::MAX {
            Some(quotient(num as int, den as int) as i64)
        } else {
            None::<i64>
        }),
{
    assert(-RATIO_LIMIT * 1_000_000 <= num * SCALE <= RATIO_LIMIT * 1_000_000) by (nonlinear_arith)
        requires
            SCALE == 1_000_000,
            -RATIO_LIMIT <= num <= RATIO_LIMIT,
    ;
    let wide: i128 = num * (SCALE as i128);
    let q: i128 = floor_div(wide, den as i128);
    if i64::MIN as i128 <= q && q <= i64::MAX as i128 {
        Some(q as i64)
    } else {
        None
    }
}

/// The rate of change from one non-negative decimal to another,
/// `(to - from) / from`, or `None` where `from` is zero or the rate does not
/// fit `i64`.
pub fn relative_change(from: u64, to: u64) -> (r: Option<i64>)
    ensures
        r == (if from != 0 && i64::MIN <= quotient(to - from, from as int) <= i64::MAX {
            Some(quotient(to - from, from as int) as i64)
        } else {
            None::<i64>
        }),
{
    if from == 0 {
        return None;
    }
    checked_ratio(to as i128 - from as i128, from)
}

/// The square root of `n`, rounded down.
pub fn isqrt(n: u128) -> (r: u64)
    ensures
        r == integer_sqrt(n as int),
        is_integer_sqrt(r as int, n as int),
{
    let mut lo: u128 = 0;
    let mut hi: u128 = 0x1_0000_0000_0000_0000;
    assert(n < hi * hi) by (nonlinear_arith)
        requires
            hi == 0x1_0000_0000_0000_0000,
            n <= u128::MAX,
    ;
    while hi - lo > 1
        invariant
            lo < hi <= 0x1_0000_0000_0000_0000,
            lo * lo <= n < hi * hi,
        decreases hi - lo,
    {
        let mid: u128 = lo + (hi - lo) / 2;
        assert(mid * mid <= 0xffff_ffff_ffff_ffff * 0xffff_ffff_ffff_ffff) by (nonlinear_arith)
            requires
                0 <= mid <= 0xffff_ffff_ffff_ffff,
        ;
        if mid * mid <= n {
            lo = mid;
        } else {
            hi = mid;
        }
    }
    proof {
        lemma_integer_sqrt_unique(lo as int, n as int);
    }
    lo as u64
}

} // verus!

//! Fixed-point numeric model: scaled rates, truncating division, and an
//! integer square root, each pinned to a spec-level definition.

use vstd::prelude::*;
use vstd::arithmetic::mul::{lemma_mul_inequality, lemma_mul_is_commutative};
use vstd::arithmetic::div_mod::{lemma_div_is_ordered, lemma_fundamental_div_mod};

verus! {

/// One whole (a rate of 100%, a ratio of 1.0) in fixed-point: parts per million.
pub const RATE_SCALE: i64 = 1_000_000;

/// Largest representable price, in ticks.
pub const MAX_PRICE: i64 = 1_000_000_000;

/// Largest representable position size, in units.
pub const MAX_SIZE: i64 = 1_000_000_000;

/// Largest supported bar count.
pub const MAX_BARS: usize = 1_000_000_000;

/// Sentinel timestamp meaning "this signal never expires".
pub const NO_EXPIRATION: i64 = i64::MAX;

/// Largest representable scaled bar-to-bar return; a ratio beyond it is
/// degenerate and reads as zero.
pub const RETURN_CAP: i128 = 100_000_000_000_000;

/// Magnitude every equity, realized or floating amount stays within.
pub const EQUITY_BOUND: i128 = 10_000_000_000_000_000_000_000_000_000;

/// Magnitude of the absolute value of `x`.
pub open spec fn abs_val(x: int) -> int {
    if x >= 0 { x } else { -x }
}

/// Division rounding toward zero, as the hardware does it, for `d != 0`.
pub open spec fn div_trunc(n: int, d: int) -> int {
    if (n >= 0) == (d >= 0) {
        abs_val(n) / abs_val(d)
    } else {
        -(abs_val(n) / abs_val(d))
    }
}

/// A ratio `num / den` in fixed-point, truncated toward zero; zero when the
/// denominator is zero (degenerate-input guard).
pub open spec fn ratio_scaled(num: int, den: int) -> int {
    if den == 0 { 0 } else { div_trunc(num * (RATE_SCALE as int), den) }
}

/// `raw` increased by a proportional `rate`, rounded down.
pub open spec fn price_rated_up(raw: int, rate: int) -> int {
    raw * (RATE_SCALE + rate) / (RATE_SCALE as int)
}

/// `raw` decreased by a proportional `rate`, rounded down.
pub open spec fn price_rated_down(raw: int, rate: int) -> int {
    raw * (RATE_SCALE - rate) / (RATE_SCALE as int)
}

/// The fee charged on a notional of `size * price` at a proportional `rate`.
pub open spec fn fee_amount(size: int, price: int, rate: int) -> int {
    size * price * rate / (RATE_SCALE as int)
}

/// `r` is the floor of the square root of `x`.
pub open spec fn is_floor_sqrt(x: int, r: int) -> bool {
    0 <= r && r * r <= x && x < (r + 1) * (r + 1)
}

/// The floor of the square root of a non-negative `x`.
pub open spec fn sqrt_floor(x: int) -> int {
    choose|r: int| is_floor_sqrt(x, r)
}

/// Every non-negative integer has a floor square root.
pub proof fn lemma_sqrt_floor_exists(x: int)
    requires
        x >= 0,
    ensures
        is_floor_sqrt(x, sqrt_floor(x)),
    decreases x,
{
    if x == 0 {
        assert(is_floor_sqrt(0, 0));
    } else {
        lemma_sqrt_floor_exists(x - 1);
        let r = sqrt_floor(x - 1);
        if x < (r + 1) * (r + 1) {
            assert(is_floor_sqrt(x, r));
        } else {
            assert(x == (r + 1) * (r + 1));
            assert((r + 1) * (r + 1) < (r + 2) * (r + 2)) by (nonlinear_arith)
                requires r >= 0;
            assert(is_floor_sqrt(x, r + 1));
        }
    }
    assert(exists|r: int| is_floor_sqrt(x, r));
}

/// The floor square root is unique.
pub proof fn lemma_sqrt_floor_unique(x: int, r: int)
    requires
        is_floor_sqrt(x, r),
    ensures
        r == sqrt_floor(x),
{
    let s = sqrt_floor(x);
    assert(is_floor_sqrt(x, s));
    if r < s {
        assert((r + 1) * (r + 1) <= s * s) by (nonlinear_arith)
            requires 0 <= r + 1 <= s;
        assert(false);
    }
    if s < r {
        assert((s + 1) * (s + 1) <= r * r) by (nonlinear_arith)
            requires 0 <= s + 1 <= r;
        assert(false);
    }
}

/// A truncated quotient's magnitude is at most `b` when the numerator's is
/// at most `b * d`.
pub proof fn lemma_div_trunc_abs_le(n: int, d: int, b: int)
    requires
        d >= 1,
        b >= 0,
        abs_val(n) <= b * d,
    ensures
        abs_val(div_trunc(n, d)) <= b,
{
    lemma_div_is_ordered(abs_val(n), b * d, d);
    lemma_mul_is_commutative(b, d);
    vstd::arithmetic::div_mod::lemma_div_multiples_vanish(b, d);
}

/// Division of `i128` values rounding toward zero.
pub fn div_trunc_i128(n: i128, d: i128) -> (q: i128)
    requires
        d != 0,
        n > i128::MIN,
        d > i128::MIN,
    ensures
        q == div_trunc(n as int, d as int),
        abs_val(q as int) <= abs_val(n as int),
{
    let nn: u128 = if n >= 0 { n as u128 } else { (-n) as u128 };
    let dd: u128 = if d >= 0 { d as u128 } else { (-d) as u128 };
    assert(nn == abs_val(n as int));
    assert(dd == abs_val(d as int));
    let qq: u128 = nn / dd;
    assert(qq <= nn) by {
        lemma_div_is_ordered(nn as int, nn as int, dd as int);
        assert(nn as int / 1 == nn as int);
        lemma_div_is_ordered_by_denominator(nn as int, 1, dd as int);
    }
    if (n >= 0) == (d >= 0) {
        qq as i128
    } else {
        -(qq as i128)
    }
}

proof fn lemma_div_is_ordered_by_denominator(x: int, d1: int, d2: int)
    requires
        0 <= x,
        1 <= d1 <= d2,
    ensures
        x / d2 <= x / d1,
{
    vstd::arithmetic::div_mod::lemma_div_is_ordered_by_denominator(x, d1, d2);
}

/// A scaled ratio with the denominator-zero guard, computed exactly.
pub fn ratio_scaled_i128(num: i128, den: i128) -> (r: i128)
    requires
        abs_val(num as int) <= 100_000_000_000_000_000_000_000_000_000_000,
        den > i128::MIN,
    ensures
        r == ratio_scaled(num as int, den as int),
        abs_val(r as int) <= abs_val(num as int) * (RATE_SCALE as int),
{
    if den == 0 {
        0
    } else {
        proof {
            assert(-100_000_000_000_000_000_000_000_000_000_000_000_000
                <= (num as int) * (RATE_SCALE as int)
                <= 100_000_000_000_000_000_000_000_000_000_000_000_000) by (nonlinear_arith)
                requires
                    -100_000_000_000_000_000_000_000_000_000_000 <= num as int
                        <= 100_000_000_000_000_000_000_000_000_000_000,
                    RATE_SCALE == 1_000_000i64;
        }
        div_trunc_i128(num * (RATE_SCALE as i128), den)
    }
}

/// `raw` increased by `rate`, exact against `price_rated_up`.
pub fn price_up(raw: i64, rate: i64) -> (p: i64)
    requires
        0 <= raw <= MAX_PRICE,
        0 <= rate <= RATE_SCALE,
    ensures
        p == price_rated_up(raw as int, rate as int),
        0 <= p <= 2 * MAX_PRICE,
        raw <= p <= 2 * raw,
{
    proof {
        assert(raw * (RATE_SCALE + rate) <= (2 * raw) * RATE_SCALE) by (nonlinear_arith)
            requires 0 <= raw, 0 <= rate <= RATE_SCALE;
        lemma_div_is_ordered(raw * (RATE_SCALE + rate), (2 * raw) * RATE_SCALE, RATE_SCALE as int);
        vstd::arithmetic::div_mod::lemma_div_multiples_vanish(2 * raw as int, RATE_SCALE as int);
        lemma_mul_inequality(raw as int, MAX_PRICE as int, (RATE_SCALE + rate) as int);
        lemma_mul_inequality((RATE_SCALE + rate) as int, (2 * RATE_SCALE) as int, MAX_PRICE as int);
        lemma_mul_is_commutative(MAX_PRICE as int, (RATE_SCALE + rate) as int);
        lemma_div_is_ordered(raw * (RATE_SCALE + rate), MAX_PRICE as int * (2 * RATE_SCALE), RATE_SCALE as int);
        assert(raw * (RATE_SCALE + rate) >= raw * RATE_SCALE) by (nonlinear_arith)
            requires 0 <= raw, 0 <= rate;
        lemma_div_is_ordered(raw * RATE_SCALE, raw * (RATE_SCALE + rate), RATE_SCALE as int);
        vstd::arithmetic::div_mod::lemma_div_multiples_vanish(raw as int, RATE_SCALE as int);
    }
    let wide: u64 = (raw as u64) * ((RATE_SCALE + rate) as u64) / (RATE_SCALE as u64);
    wide as i64
}

/// `raw` decreased by `rate`, exact against `price_rated_down`.
pub fn price_down(raw: i64, rate: i64) -> (p: i64)
    requires
        0 <= raw <= MAX_PRICE,
        0 <= rate <= RATE_SCALE,
    ensures
        p == price_rated_down(raw as int, rate as int),
        0 <= p <= raw,
{
    proof {
        assert(raw * (RATE_SCALE - rate) <= raw * RATE_SCALE) by (nonlinear_arith)
            requires 0 <= raw, 0 <= rate;
        assert(raw * (RATE_SCALE - rate) >= 0) by (nonlinear_arith)
            requires 0 <= raw, rate <= RATE_SCALE;
        lemma_div_is_ordered(raw * (RATE_SCALE - rate), raw * RATE_SCALE, RATE_SCALE as int);
        vstd::arithmetic::div_mod::lemma_div_multiples_vanish(raw as int, RATE_SCALE as int);
    }
    let wide: u64 = (raw as u64) * ((RATE_SCALE - rate) as u64) / (RATE_SCALE as u64);
    wide as i64
}

/// The fee on a notional, exact against `fee_amount`; never above the notional.
pub fn fee_for(size: i64, price: i64, rate: i64) -> (f: i64)
    requires
        0 <= size <= MAX_SIZE,
        0 <= price <= 2 * MAX_PRICE,
        0 <= rate <= RATE_SCALE,
    ensures
        f == fee_amount(size as int, price as int, rate as int),
        0 <= f <= size * price,
{
    proof {
        assert(0 <= size * price <= MAX_SIZE * (2 * MAX_PRICE)) by (nonlinear_arith)
            requires 0 <= size <= MAX_SIZE, 0 <= price <= 2 * MAX_PRICE;
        assert(0 <= size * price * rate <= size * price * RATE_SCALE) by (nonlinear_arith)
            requires 0 <= size * price, 0 <= rate <= RATE_SCALE;
        assert(size * price * RATE_SCALE <= MAX_SIZE * (2 * MAX_PRICE) * RATE_SCALE) by (nonlinear_arith)
            requires 0 <= size * price <= MAX_SIZE * (2 * MAX_PRICE), 0 < RATE_SCALE;
        lemma_div_is_ordered(size * price * rate, size * price * RATE_SCALE, RATE_SCALE as int);
        vstd::arithmetic::div_mod::lemma_div_multiples_vanish(size as int * price as int, RATE_SCALE as int);
    }
    let wide: u128 = (size as u128) * (price as u128) * (rate as u128) / (RATE_SCALE as u128);
    wide as i64
}

/// The floor square root, computed by bisection.
pub fn isqrt_u128(x: u128) -> (r: u128)
    ensures
        is_floor_sqrt(x as int, r as int),
        r == sqrt_floor(x as int),
        r < 0x1_0000_0000_0000_0000,
{
    let mut lo: u128 = 0;
    let mut hi: u128 = 0x1_0000_0000_0000_0000;
    if x == 0 {
        proof { lemma_sqrt_floor_unique(x as int, 0); }
        return 0;
    }
    while lo + 1 < hi
        invariant
            0 <= lo < hi <= 0x1_0000_0000_0000_0000,
            (lo as int) * (lo as int) <= x as int,
            (x as int) < (hi as int) * (hi as int),
        decreases hi - lo,
    {
        let mid: u128 = lo + (hi - lo) / 2;
        assert(lo < mid < hi);
        if mid <= x / mid {
            proof {
                lemma_fundamental_div_mod(x as int, mid as int);
                assert((mid as int) * (mid as int) <= (mid as int) * ((x as int) / (mid as int))) by (nonlinear_arith)
                    requires 0 < mid as int, mid as int <= (x as int) / (mid as int);
                assert((mid as int) * ((x as int) / (mid as int)) <= x as int) by (nonlinear_arith)
                    requires 0 < mid as int, x as int >= 0,
                        x as int == (mid as int) * ((x as int) / (mid as int)) + (x as int) % (mid as int),
                        (x as int) % (mid as int) >= 0;
            }
            lo = mid;
        } else {
            proof {
                lemma_fundamental_div_mod(x as int, mid as int);
                assert((x as int) < (mid as int) * (mid as int)) by (nonlinear_arith)
                    requires 0 < mid as int, (x as int) / (mid as int) <= (mid as int) - 1,
                        x as int == (mid as int) * ((x as int) / (mid as int)) + (x as int) % (mid as int),
                        (x as int) % (mid as int) < (mid as int);
            }
            hi = mid;
        }
    }
    proof { lemma_sqrt_floor_unique(x as int, lo as int); }
    lo
}

} // verus!

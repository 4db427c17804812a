//! Fixed-point arithmetic on micro-units.
//!
//! A physical quantity is stored as an `i64` counting micro-units:
//! `1_000_000` stands for one metre, one metre per second, one
//! kilogram, and so on. Products and quotients are computed exactly on
//! wide integers and truncated toward zero back to micro scale, so
//! every executable operation has an exact integer specification.

use vstd::prelude::*;
use vstd::arithmetic::div_mod::lemma_div_is_ordered;
use vstd::arithmetic::div_mod::lemma_div_nonincreasing;
use vstd::arithmetic::div_mod::lemma_div_pos_is_pos;

verus! {

/// Micro-units per base unit.
pub const SCALE: i64 = 1_000_000;

/// Truncating (round-toward-zero) division by a positive divisor, the
/// way hardware divides signed integers.
pub open spec fn tdiv(a: int, b: int) -> int {
    if a >= 0 {
        a / b
    } else {
        -((-a) / b)
    }
}

/// Fixed-point product: the exact product of two micro-scaled values,
/// truncated back to micro scale.
pub open spec fn fmul(a: int, b: int) -> int {
    tdiv(a * b, SCALE as int)
}

/// Fixed-point quotient of two micro-scaled values; the divisor must be
/// positive.
pub open spec fn fdivq(a: int, b: int) -> int {
    tdiv(a * (SCALE as int), b)
}

/// Whether a mathematical integer fits in an `i64`.
pub open spec fn in_i64(a: int) -> bool {
    i64::MIN <= a <= i64::MAX
}

/// Truncating division never grows the magnitude when the divisor is
/// at least one.
pub proof fn lemma_tdiv_magnitude(a: int, b: int)
    requires
        b >= 1,
    ensures
        a >= 0 ==> 0 <= tdiv(a, b) <= a,
        a < 0 ==> a <= tdiv(a, b) <= 0,
{
    if a >= 0 {
        lemma_div_pos_is_pos(a, b);
        lemma_div_nonincreasing(a, b);
    } else {
        lemma_div_pos_is_pos(-a, b);
        lemma_div_nonincreasing(-a, b);
    }
}

/// Truncating division by a positive divisor is monotone.
pub proof fn lemma_tdiv_monotone(x: int, y: int, b: int)
    requires
        b > 0,
        x <= y,
    ensures
        tdiv(x, b) <= tdiv(y, b),
{
    if x >= 0 {
        lemma_div_is_ordered(x, y, b);
    } else if y < 0 {
        lemma_div_is_ordered(-y, -x, b);
    } else {
        lemma_div_pos_is_pos(-x, b);
        lemma_div_pos_is_pos(y, b);
    }
}

/// The truncating division the machine performs, on wide intermediates.
pub fn div_wide(a: i128, b: i128) -> (r: i128)
    requires
        b > 0,
        a > i128::MIN,
    ensures
        r == tdiv(a as int, b as int),
{
    proof {
        lemma_tdiv_magnitude(a as int, b as int);
    }
    match a.checked_div(b) {
        Some(q) => q,
        None => {
            proof {
                assert(false);
            }
            0
        },
    }
}

/// Fixed-point multiplication with an overflow check: `Some` exactly
/// when the mathematical result fits in an `i64`.
pub fn fx_mul(a: i64, b: i64) -> (r: Option<i64>)
    ensures
        r is Some <==> in_i64(fmul(a as int, b as int)),
        r is Some ==> r->0 == fmul(a as int, b as int),
{
    proof {
        assert((a as i128) * (b as i128) == (a as int) * (b as int)) by (nonlinear_arith);
        assert(i128::MIN < (a as int) * (b as int) <= i128::MAX) by (nonlinear_arith);
    }
    let p: i128 = (a as i128) * (b as i128);
    let q: i128 = div_wide(p, SCALE as i128);
    proof {
        lemma_tdiv_magnitude(p as int, SCALE as int);
    }
    if q >= i64::MIN as i128 && q <= i64::MAX as i128 {
        Some(q as i64)
    } else {
        None
    }
}

/// Fixed-point division by a positive divisor, with an overflow check:
/// `Some` exactly when the mathematical result fits in an `i64`.
pub fn fx_div(a: i64, b: i64) -> (r: Option<i64>)
    requires
        b > 0,
    ensures
        r is Some <==> in_i64(fdivq(a as int, b as int)),
        r is Some ==> r->0 == fdivq(a as int, b as int),
{
    proof {
        assert((a as i128) * (SCALE as i128) == (a as int) * (SCALE as int)) by (nonlinear_arith);
        assert(i128::MIN < (a as int) * (SCALE as int) <= i128::MAX) by (nonlinear_arith);
    }
    let p: i128 = (a as i128) * (SCALE as i128);
    let q: i128 = div_wide(p, b as i128);
    proof {
        lemma_tdiv_magnitude(p as int, b as int);
    }
    if q >= i64::MIN as i128 && q <= i64::MAX as i128 {
        Some(q as i64)
    } else {
        None
    }
}

/// Exact product of two `i64` values, with an overflow check: `Some`
/// exactly when the product fits in an `i64`.
pub fn mul_wide(a: i64, b: i64) -> (r: Option<i64>)
    ensures
        r is Some <==> in_i64((a as int) * (b as int)),
        r is Some ==> r->0 == (a as int) * (b as int),
{
    a.checked_mul(b)
}

/// Checked addition.
pub fn add_i64(a: i64, b: i64) -> (r: Option<i64>)
    ensures
        r is Some <==> in_i64(a as int + b as int),
        r is Some ==> r->0 == a as int + b as int,
{
    a.checked_add(b)
}

/// Checked subtraction.
pub fn sub_i64(a: i64, b: i64) -> (r: Option<i64>)
    ensures
        r is Some <==> in_i64(a as int - b as int),
        r is Some ==> r->0 == a as int - b as int,
{
    a.checked_sub(b)
}

/// Fixed-point multiplication whose result is known to fit.
pub fn fmul_exec(a: i64, b: i64) -> (r: i64)
    requires
        in_i64(fmul(a as int, b as int)),
    ensures
        r == fmul(a as int, b as int),
{
    match fx_mul(a, b) {
        Some(v) => v,
        None => {
            proof {
                assert(false);
            }
            0
        },
    }
}

/// Fixed-point division whose result is known to fit.
pub fn fdivq_exec(a: i64, b: i64) -> (r: i64)
    requires
        b > 0,
        in_i64(fdivq(a as int, b as int)),
    ensures
        r == fdivq(a as int, b as int),
{
    match fx_div(a, b) {
        Some(v) => v,
        None => {
            proof {
                assert(false);
            }
            0
        },
    }
}

/// A bound on the dividend gives the same bound on a truncating
/// quotient.
pub proof fn lemma_tdiv_bound(a: int, b: int, m: int)
    requires
        b > 0,
        m >= 0,
        -(m * b) <= a <= m * b,
    ensures
        -m <= tdiv(a, b) <= m,
{
    vstd::arithmetic::div_mod::lemma_div_multiples_vanish(m, b);
    if a >= 0 {
        lemma_div_pos_is_pos(a, b);
        lemma_div_is_ordered(a, m * b, b);
    } else {
        lemma_div_pos_is_pos(-a, b);
        lemma_div_is_ordered(-a, m * b, b);
    }
}

/// The floor of the square root of a non-negative integer.
pub open spec fn sqrt_floor(n: int) -> int {
    choose|s: int| s >= 0 && #[trigger] (s * s) <= n && n < (s + 1) * (s + 1)
}

/// The floor square root is pinned down by its defining inequalities.
pub proof fn lemma_sqrt_floor_is(n: int, r: int)
    requires
        r >= 0,
        r * r <= n,
        n < (r + 1) * (r + 1),
    ensures
        sqrt_floor(n) == r,
{
    let s = sqrt_floor(n);
    assert(s >= 0 && s * s <= n && n < (s + 1) * (s + 1)) by {
        assert(r >= 0 && r * r <= n && n < (r + 1) * (r + 1));
    }
    if s < r {
        assert((s + 1) * (s + 1) <= r * r) by (nonlinear_arith)
            requires
                0 <= s + 1 <= r,
        ;
        assert(false);
    }
    if s > r {
        assert((r + 1) * (r + 1) <= s * s) by (nonlinear_arith)
            requires
                0 <= r + 1 <= s,
        ;
        assert(false);
    }
}

/// Floor square root of a micro-scaled value, computed at micro scale:
/// the result is the largest `r` with `r * r <= x * SCALE`, so that `r`
/// is again a micro-scaled value.
pub fn fx_sqrt(x: i64) -> (r: i64)
    requires
        x >= 0,
    ensures
        r >= 0,
        r * r <= x * SCALE < (r + 1) * (r + 1),
        r == sqrt_floor(x * SCALE),
{
    proof {
        assert((x as u128) * (SCALE as u128) == (x as int) * (SCALE as int)) by (nonlinear_arith)
            requires
                x >= 0,
        ;
        assert((x as int) * (SCALE as int) < 3_100_000_000_001int * 3_100_000_000_001int)
            by (nonlinear_arith)
            requires
                0 <= x <= i64::MAX,
        ;
    }
    let n: u128 = (x as u128) * (SCALE as u128);
    let mut lo: u128 = 0;
    let mut hi: u128 = 3_100_000_000_000;
    while lo < hi
        invariant
            lo <= hi <= 3_100_000_000_000,
            lo * lo <= n,
            n < (hi + 1) * (hi + 1),
        decreases hi - lo,
    {
        let mid: u128 = lo + (hi - lo + 1) / 2;
        proof {
            assert(mid * mid <= 3_100_000_000_000u128 * 3_100_000_000_000u128)
                by (nonlinear_arith)
                requires
                    0 <= mid <= 3_100_000_000_000u128,
            ;
        }
        if mid * mid <= n {
            lo = mid;
        } else {
            hi = mid - 1;
        }
    }
    proof {
        lemma_sqrt_floor_is((x as int) * (SCALE as int), lo as int);
    }
    lo as i64
}

/// The larger of two values.
pub fn max_i64(l: i64, r: i64) -> (m: i64)
    ensures
        m == if l >= r { l as int } else { r as int },
{
    if l >= r {
        l
    } else {
        r
    }
}

/// The smaller of two values.
pub fn min_i64(l: i64, r: i64) -> (m: i64)
    ensures
        m == if l <= r { l as int } else { r as int },
{
    if l <= r {
        l
    } else {
        r
    }
}

} // verus!

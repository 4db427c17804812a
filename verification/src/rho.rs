//! Alternate altitude-to-density models, kept for regression
//! comparison against the canonical polynomial atmosphere.
//!
//! Both share the single-argument interface of
//! [`crate::atmosphere::altitude_to_rho`]: whole metres in,
//! micro-`kg/m^3` out, clamped to the boundary value beyond each
//! model's validated ceiling.

use vstd::prelude::*;
use crate::fixed::{tdiv, lemma_tdiv_magnitude, lemma_tdiv_monotone};

verus! {

/// Ceiling of the cubic fit's validated range, in metres.
pub const FIT_H_MAX: u32 = 10000;

/// The cubic density fit scaled to exact integers: the value counts
/// `10^-15 kg/m^3` at an altitude in whole metres.
pub open spec fn cubic_fit(h: int) -> int {
    -36 * h * h * h + 2048000 * h * h - 47574000000 * h + 567771000000000
}

/// Density after the cubic fit, in micro-`kg/m^3`, clamped beyond the
/// fit's ceiling.
pub open spec fn cubic_rho_spec(h: int) -> int {
    let g = if h <= FIT_H_MAX { h } else { FIT_H_MAX as int };
    tdiv(cubic_fit(g), 1_000_000_000)
}

/// Density after the cubic polynomial fit of the lookup table's data.
pub fn altitude_to_rho(altitude: u32) -> (r: i64)
    ensures
        r == cubic_rho_spec(altitude as int),
{
    let h: i128 = if altitude <= FIT_H_MAX { altitude as i128 } else { FIT_H_MAX as i128 };
    proof {
        assert(-360000i128 <= -36 * h <= 0) by (nonlinear_arith)
            requires
                0 <= h <= 10000,
        ;
    }
    let cube_part: i128 = -36 * h;
    proof {
        assert(-3_600_000_000i128 <= cube_part * h <= 0) by (nonlinear_arith)
            requires
                -360000 <= cube_part <= 0,
                0 <= h <= 10000,
        ;
    }
    let cube_part2: i128 = cube_part * h;
    proof {
        assert(-36_000_000_000_000i128 <= cube_part2 * h <= 0) by (nonlinear_arith)
            requires
                -3_600_000_000 <= cube_part2 <= 0,
                0 <= h <= 10000,
        ;
    }
    let cube: i128 = cube_part2 * h;
    let square_part: i128 = 2048000 * h;
    proof {
        assert(0 <= square_part * h <= 204_800_000_000_000i128) by (nonlinear_arith)
            requires
                0 <= square_part <= 20_480_000_000,
                0 <= h <= 10000,
        ;
    }
    let square: i128 = square_part * h;
    let y: i128 = cube + square - 47574000000 * h + 567771000000000;
    proof {
        assert(y == cubic_fit(h as int));
        lemma_tdiv_magnitude(y as int, 1_000_000_000);
    }
    crate::fixed::div_wide(y, 1_000_000_000) as i64
}

/// Climbing one metre strictly decreases the cubic fit, at any
/// altitude whatsoever.
proof fn lemma_cubic_fit_step(h: int)
    ensures
        cubic_fit(h + 1) < cubic_fit(h),
{
    let dq = 108 * (h * h) - 4095892 * h + 47571952036;
    assert(cubic_fit(h) - cubic_fit(h + 1) == dq) by (nonlinear_arith)
        requires
            dq == 108 * (h * h) - 4095892 * h + 47571952036,
    ;
    assert((216 * h - 4095892) * (216 * h - 4095892) + 3774752003888 == 432 * dq)
        by (nonlinear_arith)
        requires
            dq == 108 * (h * h) - 4095892 * h + 47571952036,
    ;
    assert((216 * h - 4095892) * (216 * h - 4095892) >= 0) by (nonlinear_arith);
}

/// The cubic fit is non-increasing.
pub proof fn lemma_cubic_fit_mono(h1: int, h2: int)
    requires
        h1 <= h2,
    ensures
        cubic_fit(h2) <= cubic_fit(h1),
    decreases h2 - h1,
{
    if h1 < h2 {
        lemma_cubic_fit_step(h2 - 1);
        lemma_cubic_fit_mono(h1, h2 - 1);
    }
}

/// Density after the cubic fit is non-increasing in altitude.
pub proof fn lemma_cubic_rho_non_increasing(h1: int, h2: int)
    requires
        0 <= h1 <= h2,
    ensures
        cubic_rho_spec(h2) <= cubic_rho_spec(h1),
{
    let g1 = if h1 <= FIT_H_MAX { h1 } else { FIT_H_MAX as int };
    let g2 = if h2 <= FIT_H_MAX { h2 } else { FIT_H_MAX as int };
    lemma_cubic_fit_mono(g1, g2);
    lemma_tdiv_monotone(cubic_fit(g2), cubic_fit(g1), 1_000_000_000);
}

/// Beyond its ceiling the cubic fit's density is held constant.
pub proof fn lemma_cubic_rho_constant_beyond_ceiling(h: int)
    requires
        h >= FIT_H_MAX,
    ensures
        cubic_rho_spec(h) == cubic_rho_spec(FIT_H_MAX as int),
{
}

/// The discrete density table: the value of the first tabulated
/// altitude at or above the argument, clamped to the last row beyond
/// ten kilometres.
pub open spec fn lookup_rho_spec(h: int) -> int {
    if h <= 0 {
        1209000
    } else if h <= 500 {
        1139000
    } else if h <= 1000 {
        1072000
    } else if h <= 1500 {
        1008300
    } else if h <= 2000 {
        947800
    } else if h <= 2500 {
        890300
    } else if h <= 3000 {
        835600
    } else if h <= 3500 {
        783700
    } else if h <= 4000 {
        734400
    } else if h <= 4500 {
        687700
    } else if h <= 5000 {
        643400
    } else if h <= 5500 {
        601400
    } else if h <= 6000 {
        561700
    } else if h <= 6500 {
        524100
    } else if h <= 7000 {
        488600
    } else if h <= 7500 {
        455100
    } else if h <= 8000 {
        423450
    } else if h <= 8500 {
        393600
    } else if h <= 9000 {
        365500
    } else if h <= 9500 {
        339000
    } else {
        314200
    }
}

/// Density after the discrete half-kilometre lookup table.
pub fn altitude_to_rho_lookup(altitude: u32) -> (r: i64)
    ensures
        r == lookup_rho_spec(altitude as int),
{
    if altitude == 0 {
        1209000
    } else if altitude <= 500 {
        1139000
    } else if altitude <= 1000 {
        1072000
    } else if altitude <= 1500 {
        1008300
    } else if altitude <= 2000 {
        947800
    } else if altitude <= 2500 {
        890300
    } else if altitude <= 3000 {
        835600
    } else if altitude <= 3500 {
        783700
    } else if altitude <= 4000 {
        734400
    } else if altitude <= 4500 {
        687700
    } else if altitude <= 5000 {
        643400
    } else if altitude <= 5500 {
        601400
    } else if altitude <= 6000 {
        561700
    } else if altitude <= 6500 {
        524100
    } else if altitude <= 7000 {
        488600
    } else if altitude <= 7500 {
        455100
    } else if altitude <= 8000 {
        423450
    } else if altitude <= 8500 {
        393600
    } else if altitude <= 9000 {
        365500
    } else if altitude <= 9500 {
        339000
    } else {
        314200
    }
}

/// The tabulated density is non-increasing in altitude, and constant
/// beyond the last row.
pub proof fn lemma_lookup_rho_non_increasing(h1: int, h2: int)
    requires
        h1 <= h2,
    ensures
        lookup_rho_spec(h2) <= lookup_rho_spec(h1),
{
}

} // verus!

//! Polynomial atmosphere model.
//!
//! Density, pressure and temperature are fourth-degree polynomials in
//! the altitude (whole metres), referenced to the sea-level standard
//! pressure `101300 Pa` and temperature `288.16 K`. Coefficients are
//! exact integers counting `10^-24` of the dimensionless sea-level
//! ratio, so a polynomial value is computed without any intermediate
//! rounding; a single truncating division scales it back to
//! micro-units. Beyond the ceiling altitude [`H_MAX`] every curve is
//! clamped to its ceiling value rather than extrapolated.

use vstd::prelude::*;
use crate::fixed::{
    fdivq, fmul, fdivq_exec, fmul_exec, fx_sqrt, in_i64, sqrt_floor, tdiv, div_wide,
    lemma_tdiv_bound, lemma_tdiv_magnitude, SCALE,
};

verus! {

/// Integer scale of the polynomial coefficients: `10^-24` of the
/// sea-level ratio per unit.
pub const POLY_SCALE: i128 = 1_000_000_000_000_000_000_000_000;

/// Ceiling of the validated altitude range, in metres.
pub const H_MAX: u32 = 18300;

/// Density polynomial coefficients (degree 1 to 4).
pub const DENS_C1: i128 = -95_938_700_000_000_000_000;

pub const DENS_C2: i128 = 3_531_180_000_000_000;

pub const DENS_C3: i128 = -58_355_600_000;

pub const DENS_C4: i128 = 228_719;

/// Pressure polynomial coefficients (degree 1 to 4).
pub const PRES_C1: i128 = -118_441_000_000_000_000_000;

pub const PRES_C2: i128 = 5_676_300_000_000_000;

pub const PRES_C3: i128 = -137_380_000_000;

pub const PRES_C4: i128 = 1_603_730;

/// Temperature polynomial coefficients (degree 1 to 4).
pub const TEMP_C1: i128 = -22_771_200_000_000_000_000;

pub const TEMP_C2: i128 = 218_069_000_000_000;

pub const TEMP_C3: i128 = -57_110_400_000;

pub const TEMP_C4: i128 = 3_973_060;

/// A fourth-degree polynomial with constant term [`POLY_SCALE`],
/// evaluated exactly over the integers.
pub open spec fn poly4(c1: int, c2: int, c3: int, c4: int, h: int) -> int {
    POLY_SCALE + c1 * h + c2 * h * h + c3 * h * h * h + c4 * h * h * h * h
}

/// Altitudes beyond the ceiling are treated as the ceiling itself.
pub open spec fn clamp_alt(h: int) -> int {
    if h <= H_MAX { h } else { H_MAX as int }
}

/// Exact evaluation of a coefficient-bounded polynomial at a clamped
/// altitude, by Horner's method on wide integers.
fn poly_eval(c1: i128, c2: i128, c3: i128, c4: i128, h: u32) -> (r: i128)
    requires
        h <= H_MAX,
        -200_000_000_000_000_000_000 <= c1 <= 200_000_000_000_000_000_000,
        -10_000_000_000_000_000 <= c2 <= 10_000_000_000_000_000,
        -200_000_000_000 <= c3 <= 200_000_000_000,
        -10_000_000 <= c4 <= 10_000_000,
    ensures
        r == poly4(c1 as int, c2 as int, c3 as int, c4 as int, h as int),
        -11_000_000_000_000_000_000_000_000 <= r <= 11_000_000_000_000_000_000_000_000,
{
    let hi: i128 = h as i128;
    proof {
        assert(-200_000_000_000i128 <= c4 * (h as i128) <= 200_000_000_000i128)
            by (nonlinear_arith)
            requires
                -10_000_000 <= c4 <= 10_000_000,
                0 <= h <= 18300,
        ;
    }
    let a3: i128 = c4 * hi + c3;
    proof {
        assert(-8_000_000_000_000_000i128 <= a3 * (h as i128) <= 8_000_000_000_000_000i128)
            by (nonlinear_arith)
            requires
                -400_000_000_000 <= a3 <= 400_000_000_000,
                0 <= h <= 18300,
        ;
    }
    let a2: i128 = a3 * hi + c2;
    proof {
        assert(-330_000_000_000_000_000_000i128 <= a2 * (h as i128)
            <= 330_000_000_000_000_000_000i128) by (nonlinear_arith)
            requires
                -18_000_000_000_000_000 <= a2 <= 18_000_000_000_000_000,
                0 <= h <= 18300,
        ;
    }
    let a1: i128 = a2 * hi + c1;
    proof {
        assert(-10_000_000_000_000_000_000_000_000i128 <= a1 * (h as i128)
            <= 10_000_000_000_000_000_000_000_000i128) by (nonlinear_arith)
            requires
                -531_000_000_000_000_000_000 <= a1 <= 531_000_000_000_000_000_000,
                0 <= h <= 18300,
        ;
    }
    let a0: i128 = a1 * hi + POLY_SCALE;
    proof {
        let hh = h as int;
        assert(a0 == POLY_SCALE + c1 * hh + c2 * hh * hh + c3 * hh * hh * hh + c4 * hh * hh * hh
            * hh) by (nonlinear_arith)
            requires
                a3 == c4 * hh + c3,
                a2 == a3 * hh + c2,
                a1 == a2 * hh + c1,
                a0 == a1 * hh + POLY_SCALE,
        ;
    }
    a0
}

/// Ambient atmosphere state: pressure in micro-pascals and temperature
/// in micro-kelvins, both within the model's validated instrument
/// range.
#[derive(Clone, Copy, Debug)]
pub struct Atmosphere {
    pub pressure: i64,
    pub temperature: i64,
}

impl Atmosphere {
    /// The instrument range the polynomial model is valid for: up to a
    /// megapascal of pressure, and between one and a thousand kelvins.
    pub open spec fn wf(self) -> bool {
        0 <= self.pressure <= 1_000_000_000_000 && 1_000_000 <= self.temperature
            <= 1_000_000_000
    }

    /// Builds the state from a pressure in micro-millimetres of mercury
    /// and a temperature in micro-degrees Celsius.
    pub fn new(pressure: i64, temperature: i64) -> (a: Atmosphere)
        requires
            0 <= pressure <= 7_500_000_000,
            -272_160_000 <= temperature <= 726_840_000,
        ensures
            a.wf(),
            a.pressure == tdiv(pressure * 101300, 760),
            a.temperature == temperature + 273_160_000,
    {
        proof {
            lemma_tdiv_bound((pressure as int) * 101300, 760, 1_000_000_000_000);
            lemma_tdiv_magnitude((pressure as int) * 101300, 760);
        }
        let pa: i64 = div_wide((pressure as i128) * 101300, 760) as i64;
        Atmosphere { pressure: pa, temperature: temperature + 273_160_000 }
    }

    /// The sea-level density for this state, in micro-`kg/m^3`:
    /// `1.225 * (pressure / 101300 Pa) * (288.16 K / temperature)`.
    pub open spec fn calc_density_spec(self) -> int {
        fmul(fmul(1_225_000, fdivq(self.pressure as int, 101_300_000_000)),
            fdivq(288_160_000, self.temperature as int))
    }

    /// Density of this state scaled by the altitude polynomial, in
    /// micro-`kg/m^3`.
    pub open spec fn density_spec(self, h: int) -> int {
        tdiv(self.calc_density_spec() * poly4(DENS_C1 as int, DENS_C2 as int, DENS_C3 as int,
            DENS_C4 as int, clamp_alt(h)), POLY_SCALE as int)
    }

    /// Pressure at an altitude, in micro-pascals.
    pub open spec fn pressure_spec(self, h: int) -> int {
        tdiv((self.pressure as int) * poly4(PRES_C1 as int, PRES_C2 as int, PRES_C3 as int,
            PRES_C4 as int, clamp_alt(h)), POLY_SCALE as int)
    }

    /// Temperature at an altitude, in micro-kelvins.
    pub open spec fn temperature_spec(self, h: int) -> int {
        tdiv((self.temperature as int) * poly4(TEMP_C1 as int, TEMP_C2 as int, TEMP_C3 as int,
            TEMP_C4 as int, clamp_alt(h)), POLY_SCALE as int)
    }

    /// Sonic speed at an altitude, in micro-`m/s`: `20.1 * sqrt(T)`,
    /// with the temperature clamped at zero before the square root.
    pub open spec fn sonic_speed_spec(self, h: int) -> int {
        let t = self.temperature_spec(h);
        let tc = if t >= 0 { t } else { 0 };
        fmul(20_100_000, sqrt_floor(tc * (SCALE as int)))
    }

    fn calc_density(&self) -> (r: i64)
        requires
            self.wf(),
        ensures
            r == self.calc_density_spec(),
            0 <= r <= 4_000_000_000,
    {
        proof {
            lemma_tdiv_bound((self.pressure as int) * (SCALE as int), 101_300_000_000,
                10_000_000);
            lemma_tdiv_magnitude((self.pressure as int) * (SCALE as int), 101_300_000_000);
            lemma_tdiv_bound(288_160_000 * (SCALE as int), self.temperature as int,
                290_000_000);
            lemma_tdiv_magnitude(288_160_000 * (SCALE as int), self.temperature as int);
        }
        let ratio_p: i64 = fdivq_exec(self.pressure, 101_300_000_000);
        let ratio_t: i64 = fdivq_exec(288_160_000, self.temperature);
        proof {
            lemma_tdiv_bound(1_225_000 * (ratio_p as int), SCALE as int, 13_000_000);
            lemma_tdiv_magnitude(1_225_000 * (ratio_p as int), SCALE as int);
        }
        let base: i64 = fmul_exec(1_225_000, ratio_p);
        proof {
            assert(0 <= (base as int) * (ratio_t as int) <= 4_000_000_000_000_000int)
                by (nonlinear_arith)
                requires
                    0 <= base <= 13_000_000,
                    0 <= ratio_t <= 290_000_000,
            ;
            lemma_tdiv_bound((base as int) * (ratio_t as int), SCALE as int, 4_000_000_000);
            lemma_tdiv_magnitude((base as int) * (ratio_t as int), SCALE as int);
        }
        fmul_exec(base, ratio_t)
    }

    /// Air density at an altitude in whole metres, in micro-`kg/m^3`.
    pub fn density(&self, h: u32) -> (r: i64)
        requires
            self.wf(),
        ensures
            r == self.density_spec(h as int),
    {
        let hc: u32 = if h <= H_MAX { h } else { H_MAX };
        let k: i64 = self.calc_density();
        let p: i128 = poly_eval(DENS_C1, DENS_C2, DENS_C3, DENS_C4, hc);
        proof {
            assert(-44_000_000_000_000_000_000_000_000_000_000_000i128 <= (k as i128) * p
                <= 44_000_000_000_000_000_000_000_000_000_000_000i128) by (nonlinear_arith)
                requires
                    0 <= k <= 4_000_000_000,
                    -11_000_000_000_000_000_000_000_000 <= p
                        <= 11_000_000_000_000_000_000_000_000,
            ;
            lemma_tdiv_bound((k as int) * (p as int), POLY_SCALE as int, 44_000_000_000);
        }
        div_wide((k as i128) * p, POLY_SCALE) as i64
    }

    /// Pressure at an altitude in whole metres, in micro-pascals.
    pub fn pressure(&self, h: u32) -> (r: i64)
        requires
            self.wf(),
        ensures
            r == self.pressure_spec(h as int),
    {
        let hc: u32 = if h <= H_MAX { h } else { H_MAX };
        let p: i128 = poly_eval(PRES_C1, PRES_C2, PRES_C3, PRES_C4, hc);
        proof {
            assert(-11_000_000_000_000_000_000_000_000_000_000_000_000i128 <= (self.pressure
                as i128) * p <= 11_000_000_000_000_000_000_000_000_000_000_000_000i128)
                by (nonlinear_arith)
                requires
                    0 <= self.pressure <= 1_000_000_000_000,
                    -11_000_000_000_000_000_000_000_000 <= p
                        <= 11_000_000_000_000_000_000_000_000,
            ;
            lemma_tdiv_bound((self.pressure as int) * (p as int), POLY_SCALE as int,
                11_000_000_000_000);
        }
        div_wide((self.pressure as i128) * p, POLY_SCALE) as i64
    }

    /// Temperature at an altitude in whole metres, in micro-kelvins.
    pub fn temperature(&self, h: u32) -> (r: i64)
        requires
            self.wf(),
        ensures
            r == self.temperature_spec(h as int),
            -11_000_000_000 <= r <= 11_000_000_000,
    {
        let hc: u32 = if h <= H_MAX { h } else { H_MAX };
        let p: i128 = poly_eval(TEMP_C1, TEMP_C2, TEMP_C3, TEMP_C4, hc);
        proof {
            assert(-11_000_000_000_000_000_000_000_000_000_000_000i128 <= (self.temperature
                as i128) * p <= 11_000_000_000_000_000_000_000_000_000_000_000i128)
                by (nonlinear_arith)
                requires
                    0 <= self.temperature <= 1_000_000_000,
                    -11_000_000_000_000_000_000_000_000 <= p
                        <= 11_000_000_000_000_000_000_000_000,
            ;
            lemma_tdiv_bound((self.temperature as int) * (p as int), POLY_SCALE as int,
                11_000_000_000);
        }
        div_wide((self.temperature as i128) * p, POLY_SCALE) as i64
    }

    /// Sonic speed at an altitude in whole metres, in micro-`m/s`.
    pub fn sonic_speed(&self, h: u32) -> (r: i64)
        requires
            self.wf(),
        ensures
            r == self.sonic_speed_spec(h as int),
    {
        let t: i64 = self.temperature(h);
        let tc: i64 = if t >= 0 { t } else { 0 };
        let s: i64 = fx_sqrt(tc);
        proof {
            if s > 105_000_000 {
                assert((s as int) * (s as int) > 11_000_000_000int * 1_000_000int)
                    by (nonlinear_arith)
                    requires
                        s > 105_000_000,
                ;
                assert(false);
            }
            lemma_tdiv_bound(20_100_000 * (s as int), SCALE as int, 3_000_000_000_000);
        }
        fmul_exec(20_100_000, s)
    }
}

/// Climbing one metre never increases the density polynomial within
/// the validated range.
proof fn lemma_density_poly_step(h: int)
    requires
        0 <= h < H_MAX,
    ensures
        poly4(DENS_C1 as int, DENS_C2 as int, DENS_C3 as int, DENS_C4 as int, h + 1) <= poly4(
            DENS_C1 as int, DENS_C2 as int, DENS_C3 as int, DENS_C4 as int, h),
{
    let c1 = DENS_C1 as int;
    let c2 = DENS_C2 as int;
    let c3 = DENS_C3 as int;
    let c4 = DENS_C4 as int;
    let pa = poly4(c1, c2, c3, c4, h);
    let pb = poly4(c1, c2, c3, c4, h + 1);
    let d0 = -95935168878355371281int;
    let d1 = 7062184934114876int;
    let d2 = -175065427686int;
    let d3 = 914876int;
    let e2 = -158324111762int;
    assert(pb - pa == d0 + d1 * h + d2 * (h * h) + d3 * (h * h * h)) by (nonlinear_arith)
        requires
            pa == 1000000000000000000000000 + c1 * h + c2 * h * h + c3 * h * h * h + c4 * h * h
                * h * h,
            pb == 1000000000000000000000000 + c1 * (h + 1) + c2 * (h + 1) * (h + 1) + c3 * (h
                + 1) * (h + 1) * (h + 1) + c4 * (h + 1) * (h + 1) * (h + 1) * (h + 1),
            c1 == -95938700000000000000,
            c2 == 3531180000000000,
            c3 == -58355600000,
            c4 == 228719,
            d0 == -95935168878355371281,
            d1 == 7062184934114876,
            d2 == -175065427686,
            d3 == 914876,
    ;
    assert(h * h * h <= 18299 * (h * h)) by (nonlinear_arith)
        requires
            0 <= h <= 18299,
    ;
    assert(d2 * (h * h) + d3 * (h * h * h) <= e2 * (h * h));
    let q = d0 + d1 * h + e2 * (h * h);
    assert((d0 + d1 * 18299 + e2 * (18299 * 18299)) - q == (18299 - h) * (d1 + e2 * (18299
        + h))) by (nonlinear_arith)
        requires
            d0 == -95935168878355371281,
            d1 == 7062184934114876,
            e2 == -158324111762,
            q == d0 + d1 * h + e2 * (h * h),
    ;
    assert((18299 - h) * (d1 + e2 * (18299 + h)) >= 0) by (nonlinear_arith)
        requires
            0 <= h <= 18299,
            d1 == 7062184934114876,
            e2 == -158324111762,
    ;
    assert(d0 + d1 * 18299 + e2 * (18299 * 18299) < 0);
}

/// The density polynomial is non-increasing over the validated
/// altitude range.
pub proof fn lemma_density_poly_mono(h1: int, h2: int)
    requires
        0 <= h1 <= h2 <= H_MAX,
    ensures
        poly4(DENS_C1 as int, DENS_C2 as int, DENS_C3 as int, DENS_C4 as int, h2) <= poly4(
            DENS_C1 as int, DENS_C2 as int, DENS_C3 as int, DENS_C4 as int, h1),
    decreases h2 - h1,
{
    if h1 < h2 {
        lemma_density_poly_step(h2 - 1);
        lemma_density_poly_mono(h1, h2 - 1);
    }
}

/// The density polynomial stays between zero and its sea-level value
/// over the validated range.
pub proof fn lemma_density_poly_range(h: int)
    requires
        0 <= h <= H_MAX,
    ensures
        0 <= poly4(DENS_C1 as int, DENS_C2 as int, DENS_C3 as int, DENS_C4 as int, h)
            <= POLY_SCALE,
{
    lemma_density_poly_mono(0, h);
    lemma_density_poly_mono(h, H_MAX as int);
    assert(poly4(DENS_C1 as int, DENS_C2 as int, DENS_C3 as int, DENS_C4 as int, 0)
        == POLY_SCALE);
    assert(poly4(DENS_C1 as int, DENS_C2 as int, DENS_C3 as int, DENS_C4 as int, 18300) >= 0);
}

/// The sea-level density of a well-formed state is non-negative.
proof fn lemma_calc_density_nonneg(a: Atmosphere)
    requires
        a.wf(),
    ensures
        0 <= a.calc_density_spec(),
{
    lemma_tdiv_magnitude((a.pressure as int) * (SCALE as int), 101_300_000_000);
    lemma_tdiv_magnitude(288_160_000 * (SCALE as int), a.temperature as int);
    let rp = fdivq(a.pressure as int, 101_300_000_000);
    let rt = fdivq(288_160_000, a.temperature as int);
    lemma_tdiv_magnitude(1_225_000 * rp, SCALE as int);
    let base = fmul(1_225_000, rp);
    assert(base * rt >= 0) by (nonlinear_arith)
        requires
            base >= 0,
            rt >= 0,
    ;
    lemma_tdiv_magnitude(base * rt, SCALE as int);
}

/// Density is monotonically non-increasing in altitude: the heart of
/// the atmosphere model's contract.
pub proof fn lemma_density_non_increasing(a: Atmosphere, h1: int, h2: int)
    requires
        a.wf(),
        0 <= h1 <= h2,
    ensures
        a.density_spec(h2) <= a.density_spec(h1),
{
    let g1 = clamp_alt(h1);
    let g2 = clamp_alt(h2);
    lemma_density_poly_mono(g1, g2);
    lemma_calc_density_nonneg(a);
    let k = a.calc_density_spec();
    let p1 = poly4(DENS_C1 as int, DENS_C2 as int, DENS_C3 as int, DENS_C4 as int, g1);
    let p2 = poly4(DENS_C1 as int, DENS_C2 as int, DENS_C3 as int, DENS_C4 as int, g2);
    assert(k * p2 <= k * p1) by (nonlinear_arith)
        requires
            k >= 0,
            p2 <= p1,
    ;
    crate::fixed::lemma_tdiv_monotone(k * p2, k * p1, POLY_SCALE as int);
}

/// Beyond the ceiling altitude the density is held constant at the
/// ceiling value.
pub proof fn lemma_density_constant_beyond_ceiling(a: Atmosphere, h: int)
    requires
        h >= H_MAX,
    ensures
        a.density_spec(h) == a.density_spec(H_MAX as int),
{
}

/// Density of a well-formed state is never negative.
pub proof fn lemma_density_nonneg(a: Atmosphere, h: int)
    requires
        a.wf(),
        h >= 0,
    ensures
        0 <= a.density_spec(h),
{
    lemma_calc_density_nonneg(a);
    lemma_density_poly_range(clamp_alt(h));
    let k = a.calc_density_spec();
    let p = poly4(DENS_C1 as int, DENS_C2 as int, DENS_C3 as int, DENS_C4 as int, clamp_alt(h));
    assert(k * p >= 0) by (nonlinear_arith)
        requires
            k >= 0,
            p >= 0,
    ;
    lemma_tdiv_magnitude(k * p, POLY_SCALE as int);
}

/// The standard launch-site atmosphere: 760 mmHg and 18 degrees
/// Celsius.
pub open spec fn standard_atmosphere() -> Atmosphere {
    Atmosphere { pressure: 101_300_000_000, temperature: 291_160_000 }
}

/// Density of the standard atmosphere at an altitude in whole metres,
/// in micro-`kg/m^3`.
pub open spec fn rho_spec(h: int) -> int {
    standard_atmosphere().density_spec(h)
}

/// Air density of the standard atmosphere at an altitude in whole
/// metres.
pub fn altitude_to_rho(altitude: u32) -> (r: i64)
    ensures
        r == rho_spec(altitude as int),
{
    let a = Atmosphere::new(760_000_000, 18_000_000);
    proof {
        assert(tdiv(760_000_000int * 101300, 760) == 101_300_000_000int) by {
            vstd::arithmetic::div_mod::lemma_div_multiples_vanish(101_300_000_000, 760);
        }
    }
    a.density(altitude)
}

} // verus!

//! Tests of the atmosphere models: exact values, monotonicity
//! samples, and clamping beyond each model's ceiling.

use wt_ballistics_calc::atmosphere::{altitude_to_rho, Atmosphere};
use wt_ballistics_calc::fixed::fx_sqrt;
use wt_ballistics_calc::rho;

#[test]
fn atmosphere_rho() {
    println!("{}", altitude_to_rho(10000));
}

#[test]
fn atmosphere_test_parts() {
    for km in [0u32, 1, 2, 3, 5, 8, 10, 12, 15, 20] {
        let e = altitude_to_rho(km * 1000);
        println!("alt:{km}km {e}");
    }
}

#[test]
fn rho_rho() {
    println!("{}", rho::altitude_to_rho(10000));
}

#[test]
fn rho_test_parts() {
    for step in 0u32..=10 {
        let alt = step * 1000;
        let e = rho::altitude_to_rho(alt);
        println!("alt:{alt}m {e}");
    }
}

#[test]
fn polynomial_density_exact_values() {
    // Standard atmosphere at 760 mmHg and 18 degrees Celsius, in
    // micro-kg/m^3.
    assert_eq!(altitude_to_rho(0), 1_212_377);
    assert_eq!(altitude_to_rho(10000), 409_374);
    assert_eq!(altitude_to_rho(18300), 115_052);
}

#[test]
fn polynomial_density_constant_beyond_ceiling() {
    assert_eq!(altitude_to_rho(18301), altitude_to_rho(18300));
    assert_eq!(altitude_to_rho(u32::MAX), altitude_to_rho(18300));
}

#[test]
fn polynomial_density_non_increasing_samples() {
    let mut last = i64::MAX;
    for alt in (0..=18300).step_by(100) {
        let rho = altitude_to_rho(alt);
        assert!(rho <= last, "density rose at {alt}");
        last = rho;
    }
}

#[test]
fn atmosphere_state_exact_values() {
    let a = Atmosphere::new(760_000_000, 18_000_000);
    assert_eq!(a.pressure, 101_300_000_000);
    assert_eq!(a.temperature, 291_160_000);
    assert_eq!(a.pressure(0), 101_300_000_000);
    assert_eq!(a.temperature(0), 291_160_000);
    // 20.1 * sqrt(291.16 K) is just under Mach 1 at sea level.
    assert_eq!(a.sonic_speed(0), 342_974_561);
    assert_eq!(a.density(0), 1_212_377);
}

#[test]
fn cubic_fit_exact_values() {
    assert_eq!(rho::altitude_to_rho(0), 567_771);
    assert_eq!(rho::altitude_to_rho(10000), 260_831);
    // Clamped beyond the fit's ceiling.
    assert_eq!(rho::altitude_to_rho(20000), 260_831);
}

#[test]
fn cubic_fit_non_increasing_samples() {
    let mut last = i64::MAX;
    for alt in (0..=10000).step_by(50) {
        let rho = rho::altitude_to_rho(alt);
        assert!(rho <= last, "cubic fit rose at {alt}");
        last = rho;
    }
}

#[test]
fn lookup_table_values_and_clamp() {
    assert_eq!(rho::altitude_to_rho_lookup(0), 1_209_000);
    assert_eq!(rho::altitude_to_rho_lookup(10), 1_139_000);
    assert_eq!(rho::altitude_to_rho_lookup(500), 1_139_000);
    assert_eq!(rho::altitude_to_rho_lookup(501), 1_072_000);
    assert_eq!(rho::altitude_to_rho_lookup(8000), 423_450);
    assert_eq!(rho::altitude_to_rho_lookup(10000), 314_200);
    assert_eq!(rho::altitude_to_rho_lookup(99999), 314_200);
}

#[test]
fn lookup_table_non_increasing_samples() {
    let mut last = i64::MAX;
    for alt in (0..=11000).step_by(25) {
        let rho = rho::altitude_to_rho_lookup(alt);
        assert!(rho <= last, "table rose at {alt}");
        last = rho;
    }
}

#[test]
fn fixed_sqrt_exact() {
    // sqrt over micro-units: sqrt(4.0) == 2.0.
    assert_eq!(fx_sqrt(4_000_000), 2_000_000);
    assert_eq!(fx_sqrt(0), 0);
    assert_eq!(fx_sqrt(2_000_000), 1_414_213);
}

//! Tests of the integrator: tick counts, exact first-tick physics,
//! splash bookkeeping, determinism, stage resolution and the error
//! paths.

use wt_ballistics_calc::fixed::{fx_div, fx_mul};
use wt_ballistics_calc::launch_parameters::LaunchParameter;
use wt_ballistics_calc::missile::MissileSpec;
use wt_ballistics_calc::runner::{
    fold_max0, fold_min0, generate, resolve, EngineStage, SimError,
};

/// The spec of the first-tick scenario: 44 kg burning down to 34 kg
/// over three seconds at 95 kN, with cxk 3.1 and a 0.2 m caliber.
fn test_missile() -> MissileSpec {
    MissileSpec {
        name: String::from("test_missile"),
        caliber: 200_000,
        mass: 44_000_000,
        mass_end: 34_000_000,
        mass_end1: 0,
        force0: 95_000_000_000,
        force1: 0,
        timefire0: 3_000_000,
        timefire1: 0,
        timelife: 21_000_000,
        cxk: 3_100_000,
        reqaccelmax: 10_000_000,
    }
}

fn no_target_params() -> LaunchParameter {
    LaunchParameter {
        use_gravity: false,
        start_velocity: 367_000_000,
        distance_to_target: 0,
        target_speed: 0,
        altitude: 0,
    }
}

#[test]
fn sim_len_is_timelife_over_dt() {
    // timelife 21.0 s at dt 0.1 s: exactly 210 ticks.
    let r = generate(&test_missile(), no_target_params(), 100_000).unwrap();
    assert_eq!(r.profile.sim_len, 210);
    assert_eq!(r.profile.a.len(), 210);
    assert_eq!(r.profile.v.len(), 210);
    assert_eq!(r.profile.d.len(), 210);
}

#[test]
fn first_tick_matches_formula() {
    let m = test_missile();
    let p = no_target_params();
    let r = generate(&m, p, 100_000).unwrap();

    // rho at sea level, area = pi * (caliber/2)^2, all in micro-units.
    let rho = wt_ballistics_calc::atmosphere::altitude_to_rho(0);
    let half = m.caliber / 2;
    let area = fx_mul(3_141_593, fx_mul(half, half).unwrap()).unwrap();
    let v0 = p.start_velocity;
    let v2 = fx_mul(v0, v0).unwrap();
    let q = fx_mul(fx_mul(fx_mul(v2, rho).unwrap(), m.cxk).unwrap(), area).unwrap();
    let drag0 = fx_mul(q, 500_000).unwrap();
    // a0 = (force0 - drag0) / mass, no gravity term.
    let a0 = fx_div(m.force0 - drag0, m.mass).unwrap();
    assert_eq!(r.profile.a[0], a0);
    // v after tick 0 = 367 + a0 * 0.1.
    assert_eq!(r.profile.v[0], v0 + fx_mul(a0, 100_000).unwrap());
}

#[test]
fn gravity_term_contributes_zero_when_off() {
    let m = test_missile();
    let mut with_g = no_target_params();
    with_g.use_gravity = true;
    let off = generate(&m, no_target_params(), 100_000).unwrap();
    let on = generate(&m, with_g, 100_000).unwrap();
    // The very first tick sees identical drag, so the accelerations
    // differ by exactly the gravity constant.
    assert_eq!(off.profile.a[0], on.profile.a[0] + 9_810_000);
}

#[test]
fn splash_records_first_overtake() {
    let m = test_missile();
    let p = LaunchParameter {
        use_gravity: false,
        start_velocity: 367_000_000,
        distance_to_target: 2_000_000_000,
        target_speed: 343_000_000,
        altitude: 0,
    };
    let dt: i64 = 100_000;
    let r = generate(&m, p, dt).unwrap();

    // Walk the emitted profile and find the first tick where the
    // target's accumulated distance falls behind the missile's.
    let tgt_step = fx_mul(p.target_speed, dt).unwrap();
    let launch_step = fx_mul(p.start_velocity, dt).unwrap();
    let mut tgt = p.distance_to_target;
    let mut launch = 0i64;
    let mut expected: Option<i64> = None;
    for i in 0..r.profile.d.len() {
        tgt += tgt_step;
        launch += launch_step;
        if expected.is_none() && tgt != 0 && tgt < r.profile.d[i] {
            expected = Some(tgt - launch);
        }
    }
    let expected = expected.expect("the missile should overtake the target");
    assert!(r.splash.splash);
    assert_eq!(r.splash.at, expected);
}

#[test]
fn no_splash_without_target() {
    let r = generate(&test_missile(), no_target_params(), 100_000).unwrap();
    assert!(!r.splash.splash);
    assert_eq!(r.splash.at, 0);
}

#[test]
fn rerun_is_bit_identical() {
    let m = test_missile();
    let p = LaunchParameter {
        use_gravity: true,
        start_velocity: 343_000_000,
        distance_to_target: 2_000_000_000,
        target_speed: 300_000_000,
        altitude: 4650,
    };
    let first = generate(&m, p, 100_000).unwrap();
    let second = generate(&m, p, 100_000).unwrap();
    assert_eq!(first, second);
}

#[test]
fn extrema_match_profile_folds() {
    let r = generate(&test_missile(), no_target_params(), 100_000).unwrap();
    assert_eq!(r.max_v, fold_max0(&r.profile.v));
    assert_eq!(r.max_a, fold_max0(&r.profile.a));
    assert_eq!(r.min_a, fold_min0(&r.profile.a));
}

#[test]
fn degenerate_specs_are_rejected() {
    let mut zero_life = test_missile();
    zero_life.timelife = 0;
    assert_eq!(
        generate(&zero_life, no_target_params(), 100_000),
        Err(SimError::DegenerateSpec)
    );

    let mut no_mass = test_missile();
    no_mass.mass_end = 0;
    no_mass.mass_end1 = 0;
    assert_eq!(
        generate(&no_mass, no_target_params(), 100_000),
        Err(SimError::DegenerateSpec)
    );

    assert_eq!(
        generate(&test_missile(), no_target_params(), 0),
        Err(SimError::DegenerateSpec)
    );
}

#[test]
fn runaway_velocity_reports_overflow() {
    let mut p = no_target_params();
    // A squared start velocity beyond the fixed-point range.
    p.start_velocity = 4_000_000_000_000_000_000;
    assert_eq!(
        generate(&test_missile(), p, 100_000),
        Err(SimError::NumericOverflow)
    );
}

#[test]
fn boost0_mass_depletes_linearly() {
    let m = test_missile();
    // Sampled at ignition and after one and two seconds of the
    // three-second burn: strictly decreasing towards mass_end.
    let (f0, mass0, s0) = resolve(&m, 0).unwrap();
    let (_, mass1, _) = resolve(&m, 1_000_000).unwrap();
    let (_, mass2, _) = resolve(&m, 2_000_000).unwrap();
    assert_eq!(f0, 95_000_000_000);
    assert_eq!(s0, EngineStage::Running { level: 0 });
    assert_eq!(mass0, 44_000_000);
    assert_eq!(mass1, 40_666_667);
    assert_eq!(mass2, 37_333_334);
    assert!(mass0 > mass1 && mass1 > mass2 && mass2 > m.mass_end);
}

#[test]
fn zero_second_stage_falls_through_to_coast() {
    let m = test_missile();
    let (force, mass, stage) = resolve(&m, 3_000_000).unwrap();
    assert_eq!(stage, EngineStage::BurntOut);
    assert_eq!(force, 0);
    assert_eq!(mass, m.mass_end);
}

#[test]
fn second_stage_depletes_to_terminal_mass() {
    let mut m = test_missile();
    m.timefire1 = 2_000_000;
    m.force1 = 20_000_000_000;
    m.mass_end1 = 30_000_000;
    // One second into the two-second sustainer: halfway from 34 kg to
    // 30 kg.
    let (force, mass, stage) = resolve(&m, 4_000_000).unwrap();
    assert_eq!(stage, EngineStage::Running { level: 1 });
    assert_eq!(force, 20_000_000_000);
    assert_eq!(mass, 32_000_000);
    // After burnout the terminal mass holds.
    let (_, coast_mass, coast_stage) = resolve(&m, 5_000_000).unwrap();
    assert_eq!(coast_stage, EngineStage::BurntOut);
    assert_eq!(coast_mass, 30_000_000);
}

#[test]
fn resolver_rejects_degenerate_input() {
    let mut m = test_missile();
    m.mass_end = 0;
    m.mass_end1 = 0;
    assert!(resolve(&m, 0).is_none());
    assert!(resolve(&test_missile(), -1).is_none());
}

#[test]
fn stage_labels() {
    assert_eq!(EngineStage::Running { level: 0 }.label(), b"0".to_vec());
    assert_eq!(EngineStage::Running { level: 1 }.label(), b"1".to_vec());
    assert_eq!(EngineStage::BurntOut.label(), b"-".to_vec());
}

#[test]
fn empty_profile_when_timelife_below_half_step() {
    let mut m = test_missile();
    m.timelife = 40_000;
    let r = generate(&m, no_target_params(), 100_000).unwrap();
    assert_eq!(r.profile.sim_len, 0);
    assert!(r.profile.a.is_empty());
    assert_eq!(r.max_v, 0);
}

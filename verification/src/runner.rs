//! The trajectory integrator: a fixed-timestep forward-Euler loop over
//! staged thrust, quadratic drag, optional gravity and a closing
//! target.
//!
//! The whole run is a pure function of the missile spec, the launch
//! parameters and the timestep. Its per-tick arithmetic is specified
//! exactly: [`state_at`] gives the mathematical value of every state
//! variable at every tick, and [`generate`] either returns precisely
//! those values or reports which failure kept it from doing so.

use vstd::prelude::*;
use crate::fixed::{
    add_i64, fdivq, fmul, fx_div, fx_mul, in_i64, max_i64, min_i64, mul_wide, sub_i64, tdiv,
    div_wide, lemma_tdiv_bound, lemma_tdiv_magnitude, lemma_tdiv_monotone, SCALE,
};
use crate::launch_parameters::LaunchParameter;
use crate::missile::MissileSpec;
use crate::atmosphere::{altitude_to_rho, rho_spec};

verus! {

/// Pi in micro-units, rounded to the nearest.
pub const PI_MICRO: i64 = 3_141_593;

/// Gravity in micro-`m/s^2`.
pub const GRAVITY_MICRO: i64 = 9_810_000;

/// Which propulsion stage is active, re-derived from elapsed time
/// every tick.
#[derive(Clone, Copy, Debug, PartialEq, Eq, Structural)]
pub enum EngineStage {
    /// A boost stage is burning.
    Running { level: u8 },
    /// Coasting after burnout.
    BurntOut,
}

impl EngineStage {
    /// The textual tag of a stage: the boost level's decimal digits,
    /// or a dash after burnout.
    pub open spec fn label_spec(self) -> Seq<u8> {
        match self {
            EngineStage::Running { level } => crate::numeric::dec_digits(level as nat),
            EngineStage::BurntOut => seq![0x2Du8],
        }
    }

    /// Renders the stage tag.
    pub fn label(&self) -> (r: Vec<u8>)
        ensures
            r@ == self.label_spec(),
    {
        let mut out: Vec<u8> = Vec::new();
        match self {
            EngineStage::Running { level } => {
                crate::numeric::push_dec(*level as u64, &mut out);
            },
            EngineStage::BurntOut => {
                out.push(0x2D);
                proof {
                    assert(out@ =~= seq![0x2Du8]);
                }
            },
        }
        out
    }
}

/// The stage active at elapsed time `t` (micro-seconds): first boost
/// on `[0, timefire0)`, second boost on `[timefire0, timefire0 +
/// timefire1)` when present, coast after.
pub open spec fn stage_at(m: MissileSpec, t: int) -> EngineStage {
    if t < m.timefire0 {
        EngineStage::Running { level: 0 }
    } else if m.timefire1 > 0 && t < m.timefire0 + m.timefire1 {
        EngineStage::Running { level: 1 }
    } else {
        EngineStage::BurntOut
    }
}

/// Thrust at elapsed time `t`, micro-newtons.
pub open spec fn force_at(m: MissileSpec, t: int) -> int {
    match stage_at(m, t) {
        EngineStage::Running { level } => if level == 0 {
            m.force0 as int
        } else {
            m.force1 as int
        },
        EngineStage::BurntOut => 0,
    }
}

/// Mass at elapsed time `t`, micro-kilograms: depleting linearly from
/// `mass` to `mass_end` across the first boost, from `mass_end` to the
/// terminal mass across the second, constant at the terminal mass
/// after burnout.
pub open spec fn mass_at(m: MissileSpec, t: int) -> int {
    if t < m.timefire0 {
        m.mass - tdiv((m.mass - m.mass_end) * t, m.timefire0 as int)
    } else if m.timefire1 > 0 && t < m.timefire0 + m.timefire1 {
        m.mass_end - tdiv((m.mass_end - m.terminal_mass_spec()) * (t - m.timefire0),
            m.timefire1 as int)
    } else {
        m.terminal_mass_spec()
    }
}

/// For a valid spec and a non-negative time the mass stays within the
/// spec's envelope, in particular positive.
pub proof fn lemma_mass_at_bounds(m: MissileSpec, t: int)
    requires
        m.valid_spec(),
        t >= 0,
    ensures
        m.terminal_mass_spec() <= mass_at(m, t) <= m.mass,
        mass_at(m, t) > 0,
{
    if t < m.timefire0 {
        let rate = m.mass - m.mass_end;
        let depleted = rate * t;
        let full = rate * (m.timefire0 as int);
        assert(0 <= depleted <= full) by (nonlinear_arith)
            requires
                0 <= t <= m.timefire0,
                rate >= 0,
                depleted == rate * t,
                full == rate * m.timefire0,
        ;
        lemma_tdiv_magnitude(depleted, m.timefire0 as int);
        lemma_tdiv_bound(depleted, m.timefire0 as int, rate);
    } else if m.timefire1 > 0 && t < m.timefire0 + m.timefire1 {
        let rel = t - m.timefire0;
        let rate = m.mass_end - m.terminal_mass_spec();
        let depleted = rate * rel;
        let full = rate * (m.timefire1 as int);
        assert(0 <= depleted <= full) by (nonlinear_arith)
            requires
                0 <= rel <= m.timefire1,
                rate >= 0,
                depleted == rate * rel,
                full == rate * m.timefire1,
        ;
        lemma_tdiv_magnitude(depleted, m.timefire1 as int);
        lemma_tdiv_bound(depleted, m.timefire1 as int, rate);
    }
}

/// During the first boost the mass never increases with time.
pub proof fn lemma_boost0_mass_non_increasing(m: MissileSpec, t1: int, t2: int)
    requires
        m.valid_spec(),
        0 <= t1 <= t2 < m.timefire0,
    ensures
        mass_at(m, t2) <= mass_at(m, t1),
{
    assert((m.mass - m.mass_end) * t1 <= (m.mass - m.mass_end) * t2) by (nonlinear_arith)
        requires
            t1 <= t2,
            m.mass >= m.mass_end,
    ;
    lemma_tdiv_monotone((m.mass - m.mass_end) * t1, (m.mass - m.mass_end) * t2,
        m.timefire0 as int);
}

/// During the first boost the mass strictly decreases between any two
/// instants far enough apart for the depleted amount to resolve at
/// micro precision: the burn rate times the elapsed gap must come to
/// at least one micro-kilogram.
pub proof fn lemma_boost0_mass_strictly_decreases(m: MissileSpec, t1: int, t2: int)
    requires
        m.valid_spec(),
        0 <= t1 < t2 < m.timefire0,
        (m.mass - m.mass_end) * (t2 - t1) >= m.timefire0,
    ensures
        mass_at(m, t2) < mass_at(m, t1),
{
    let rate = m.mass - m.mass_end;
    let tf = m.timefire0 as int;
    assert(rate * t2 >= rate * t1 + tf) by (nonlinear_arith)
        requires
            rate * (t2 - t1) >= tf,
    ;
    assert(rate * t1 >= 0) by (nonlinear_arith)
        requires
            rate >= 0,
            t1 >= 0,
    ;
    lemma_tdiv_monotone(rate * t1 + tf, rate * t2, tf);
    vstd::arithmetic::div_mod::lemma_div_plus_one(rate * t1, tf);
}

/// The re-derived mass is exact at the stage edges: entering the
/// second boost it is exactly `mass_end`, and at burnout exactly the
/// terminal mass, so the half-open stage windows hand over without a
/// jump.
pub proof fn lemma_mass_continuous_at_stage_boundary(m: MissileSpec)
    requires
        m.valid_spec(),
    ensures
        m.timefire1 > 0 ==> mass_at(m, m.timefire0 as int) == m.mass_end,
        m.timefire1 > 0 ==> mass_at(m, m.timefire0 + m.timefire1) == m.terminal_mass_spec(),
        m.timefire1 == 0 ==> mass_at(m, m.timefire0 as int) == m.terminal_mass_spec(),
{
    if m.timefire1 > 0 {
        assert((m.mass_end - m.terminal_mass_spec()) * (m.timefire0 - m.timefire0) == 0)
            by (nonlinear_arith);
        vstd::arithmetic::div_mod::lemma_div_of0(m.timefire1 as int);
    }
}

/// Mass at ignition is exactly the launch mass.
pub proof fn lemma_boost0_mass_at_ignition(m: MissileSpec)
    requires
        m.valid_spec(),
        m.timefire0 > 0,
    ensures
        mass_at(m, 0) == m.mass,
{
    assert((m.mass - m.mass_end) * 0 == 0);
    vstd::arithmetic::div_mod::lemma_div_of0(m.timefire0 as int);
}

/// Per-tick flight profile: three parallel sequences with one entry
/// per tick.
#[derive(Clone, Debug, PartialEq)]
pub struct Profile {
    /// Number of ticks simulated.
    pub sim_len: u32,
    /// Acceleration per tick, micro-`m/s^2`.
    pub a: Vec<i64>,
    /// Velocity per tick, micro-`m/s`.
    pub v: Vec<i64>,
    /// Distance travelled per tick, micro-metres.
    pub d: Vec<i64>,
}

/// The splash event: set at most once, first occurrence wins.
#[derive(Clone, Copy, Debug, PartialEq, Eq, Structural)]
pub struct Splash {
    /// Whether the missile's distance ever overtook the target's.
    pub splash: bool,
    /// Target distance minus launch-plane distance at the first such
    /// tick, micro-metres.
    pub at: i64,
}

/// Everything a run produces, immutable once returned.
#[derive(Clone, Debug, PartialEq)]
pub struct LaunchResults {
    /// Total distance flown, micro-metres.
    pub distance_flown: i64,
    /// Distance of the launch plane from the launch point, micro-metres.
    pub distance_to_missile: i64,
    /// The splash event, if any.
    pub splash: Splash,
    /// Running maximum of the velocity, micro-`m/s`.
    pub max_v: i64,
    /// Running maximum of the acceleration, micro-`m/s^2`.
    pub max_a: i64,
    /// Running minimum of the acceleration, micro-`m/s^2`.
    pub min_a: i64,
    /// The timestep the run was made with, micro-seconds.
    pub timestep: i64,
    /// The per-tick profile.
    pub profile: Profile,
    /// The parameters the run was made with, echoed for provenance.
    pub parameters: LaunchParameter,
}

/// Why a run was refused.
#[derive(Clone, Copy, Debug, PartialEq, Eq, Structural)]
pub enum SimError {
    /// The missile spec or the timestep failed validation before the
    /// loop started.
    DegenerateSpec,
    /// A tick's arithmetic left the fixed-point range.
    NumericOverflow,
}

/// The fixed per-run inputs of the integrator.
pub ghost struct SimEnv {
    /// The missile spec driving thrust and mass.
    pub m: MissileSpec,
    /// Air density at the launch altitude, evaluated once per run.
    pub rho: int,
    /// Frontal area, micro-`m^2`.
    pub area: int,
    /// Gravity term, micro-`m/s^2`: zero when gravity is off.
    pub gravity: int,
    /// The target's closing velocity, micro-`m/s`.
    pub target_velocity: int,
    /// The carrier's velocity, fixed at the initial start velocity.
    pub launch_velocity: int,
    /// Initial distance to the target, micro-metres.
    pub target_start: int,
    /// Timestep, micro-seconds.
    pub dt: int,
}

/// The evolving state of a run, over unbounded integers.
pub ghost struct SimState {
    /// Velocity, micro-`m/s`.
    pub v: int,
    /// Distance travelled, micro-metres.
    pub dist: int,
    /// The target's accumulated distance, micro-metres.
    pub tgt: int,
    /// The launch plane's accumulated distance, micro-metres.
    pub launch: int,
    /// Running maximum of the velocity.
    pub max_v: int,
    /// Running maximum of the acceleration.
    pub max_a: int,
    /// Running minimum of the acceleration.
    pub min_a: int,
    /// Running minimum of the closing distance.
    pub closest: int,
    /// Whether a splash has been recorded.
    pub splash: bool,
    /// Where the splash was recorded, micro-metres.
    pub splash_at: int,
}

/// Half the caliber, micro-metres.
pub open spec fn half_caliber(m: MissileSpec) -> int {
    tdiv(m.caliber as int, 2)
}

/// Frontal area from the caliber: `pi * (caliber / 2)^2`.
pub open spec fn area_spec(m: MissileSpec) -> int {
    fmul(PI_MICRO as int, fmul(half_caliber(m), half_caliber(m)))
}

/// The gravity term the parameters ask for.
pub open spec fn gravity_spec(p: LaunchParameter) -> int {
    if p.use_gravity {
        GRAVITY_MICRO as int
    } else {
        0
    }
}

/// The run inputs derived from spec, parameters and timestep.
pub open spec fn env_of(m: MissileSpec, p: LaunchParameter, dt: int) -> SimEnv {
    SimEnv {
        m,
        rho: rho_spec(p.altitude as int),
        area: area_spec(m),
        gravity: gravity_spec(p),
        target_velocity: p.target_speed as int,
        launch_velocity: p.start_velocity as int,
        target_start: p.distance_to_target as int,
        dt,
    }
}

/// The state before the first tick.
pub open spec fn init_state(env: SimEnv) -> SimState {
    SimState {
        v: env.launch_velocity,
        dist: 0,
        tgt: env.target_start,
        launch: 0,
        max_v: 0,
        max_a: 0,
        min_a: 0,
        closest: i64::MAX as int,
        splash: false,
        splash_at: 0,
    }
}

/// Elapsed flight time at the start of tick `i`.
pub open spec fn tick_t(env: SimEnv, i: int) -> int {
    i * env.dt
}

/// Drag force for the velocity in `st`:
/// `0.5 * rho * v^2 * cxk * area`, multiplied in that association:
/// `((((v * v) * rho) * cxk) * area) * 0.5`.
pub open spec fn tick_drag(env: SimEnv, st: SimState) -> int {
    fmul(fmul(fmul(fmul(st.v, st.v), env.rho), env.m.cxk as int), env.area)
}

/// Acceleration applied during tick `i`:
/// `(force - drag) / mass - gravity`.
pub open spec fn tick_a(env: SimEnv, st: SimState, i: int) -> int {
    let t = tick_t(env, i);
    fdivq(force_at(env.m, t) - fmul(tick_drag(env, st), 500_000), mass_at(env.m, t))
        - env.gravity
}

/// One forward-Euler tick.
pub open spec fn tick(env: SimEnv, st: SimState, i: int) -> SimState {
    let a = tick_a(env, st, i);
    let tgt2 = st.tgt + fmul(env.target_velocity, env.dt);
    let launch2 = st.launch + fmul(env.launch_velocity, env.dt);
    let v2 = st.v + fmul(a, env.dt);
    let dist2 = st.dist + fmul(v2, env.dt);
    let closer = tgt2 - dist2;
    let trigger = tgt2 != 0 && tgt2 < dist2;
    SimState {
        v: v2,
        dist: dist2,
        tgt: tgt2,
        launch: launch2,
        max_v: if v2 > st.max_v { v2 } else { st.max_v },
        max_a: if a > st.max_a { a } else { st.max_a },
        min_a: if a < st.min_a { a } else { st.min_a },
        closest: if closer < st.closest { closer } else { st.closest },
        splash: st.splash || trigger,
        splash_at: if !st.splash && trigger { tgt2 - launch2 } else { st.splash_at },
    }
}

/// Whether every intermediate value of tick `i` from state `st` stays
/// within the `i64` fixed-point range, in the order the integrator
/// computes them.
pub open spec fn tick_fits(env: SimEnv, st: SimState, i: int) -> bool {
    let t = tick_t(env, i);
    let v2 = fmul(st.v, st.v);
    let q1 = fmul(v2, env.rho);
    let q2 = fmul(q1, env.m.cxk as int);
    let q3 = fmul(q2, env.area);
    let drag = fmul(q3, 500_000);
    let araw = fdivq(force_at(env.m, t) - drag, mass_at(env.m, t));
    let a = araw - env.gravity;
    let tgt2 = st.tgt + fmul(env.target_velocity, env.dt);
    let launch2 = st.launch + fmul(env.launch_velocity, env.dt);
    let vn = st.v + fmul(a, env.dt);
    let distn = st.dist + fmul(vn, env.dt);
    &&& in_i64(t)
    &&& in_i64(v2)
    &&& in_i64(q1)
    &&& in_i64(q2)
    &&& in_i64(q3)
    &&& in_i64(force_at(env.m, t) - drag)
    &&& in_i64(araw)
    &&& in_i64(a)
    &&& in_i64(fmul(env.target_velocity, env.dt))
    &&& in_i64(tgt2)
    &&& in_i64(fmul(env.launch_velocity, env.dt))
    &&& in_i64(launch2)
    &&& in_i64(fmul(a, env.dt))
    &&& in_i64(vn)
    &&& in_i64(fmul(vn, env.dt))
    &&& in_i64(distn)
    &&& in_i64(tgt2 - distn)
    &&& (!st.splash && tgt2 != 0 && tgt2 < distn ==> in_i64(tgt2 - launch2))
}

/// The mathematical state after `n` ticks.
pub open spec fn state_at(env: SimEnv, n: nat) -> SimState
    decreases n,
{
    if n == 0 {
        init_state(env)
    } else {
        tick(env, state_at(env, (n - 1) as nat), n - 1)
    }
}

/// Whether the first `n` ticks all stay within range.
pub open spec fn fits_prefix(env: SimEnv, n: nat) -> bool {
    forall|i: nat| i < n ==> #[trigger] tick_fits(env, state_at(env, i), i as int)
}

/// The number of ticks a run makes: `timelife / dt`, rounded half up.
pub open spec fn sim_len_spec(timelife: int, dt: int) -> int {
    (2 * timelife + dt) / (2 * dt)
}

/// Whether the values computed before the loop stay within range.
pub open spec fn prelude_fits(m: MissileSpec, dt: int) -> bool {
    &&& in_i64(fmul(half_caliber(m), half_caliber(m)))
    &&& in_i64(area_spec(m))
    &&& sim_len_spec(m.timelife as int, dt) <= u32::MAX
}

/// Resolves thrust, mass and stage for elapsed time `t`: the
/// data-validation gate demanded of the stage resolver. `None` exactly
/// on a degenerate spec or a negative time.
pub fn resolve(m: &MissileSpec, t: i64) -> (r: Option<(i64, i64, EngineStage)>)
    ensures
        r is Some <==> m.valid_spec() && t >= 0,
        r is Some ==> {
            let (force, mass, stage) = r->0;
            &&& force == force_at(*m, t as int)
            &&& mass == mass_at(*m, t as int)
            &&& stage == stage_at(*m, t as int)
            &&& mass > 0
        },
{
    if !m.validate() || t < 0 {
        return None;
    }
    proof {
        lemma_mass_at_bounds(*m, t as int);
    }
    if t < m.timefire0 {
        let rate: i64 = m.mass - m.mass_end;
        proof {
            assert(0 <= (rate as int) * (t as int) <= (rate as int) * (m.timefire0 as int)
                && (rate as int) * (m.timefire0 as int) < i128::MAX) by (nonlinear_arith)
                requires
                    0 <= rate <= i64::MAX,
                    0 <= t <= m.timefire0 <= i64::MAX,
            ;
        }
        let depleted: i128 = (rate as i128) * (t as i128);
        proof {
            lemma_tdiv_bound(depleted as int, m.timefire0 as int, rate as int);
        }
        let delta: i64 = div_wide(depleted, m.timefire0 as i128) as i64;
        Some((m.force0, m.mass - delta, EngineStage::Running { level: 0 }))
    } else if m.timefire1 > 0 && t - m.timefire0 < m.timefire1 {
        let terminal: i64 = if m.mass_end1 > 0 { m.mass_end1 } else { m.mass_end };
        let rate: i64 = m.mass_end - terminal;
        let rel: i64 = t - m.timefire0;
        proof {
            assert(0 <= (rate as int) * (rel as int) <= (rate as int) * (m.timefire1 as int)
                && (rate as int) * (m.timefire1 as int) < i128::MAX) by (nonlinear_arith)
                requires
                    0 <= rate <= i64::MAX,
                    0 <= rel <= m.timefire1 <= i64::MAX,
            ;
        }
        let depleted: i128 = (rate as i128) * (rel as i128);
        proof {
            lemma_tdiv_bound(depleted as int, m.timefire1 as int, rate as int);
        }
        let delta: i64 = div_wide(depleted, m.timefire1 as i128) as i64;
        Some((m.force1, m.mass_end - delta, EngineStage::Running { level: 1 }))
    } else {
        let terminal: i64 = if m.mass_end1 > 0 { m.mass_end1 } else { m.mass_end };
        Some((0, terminal, EngineStage::BurntOut))
    }
}

/// With gravity off the gravity term contributes exactly zero: every
/// tick's acceleration is the bare thrust-minus-drag term.
pub proof fn lemma_gravity_off_contributes_zero(
    m: MissileSpec,
    p: LaunchParameter,
    dt: int,
    i: nat,
)
    requires
        !p.use_gravity,
    ensures
        ({
            let env = env_of(m, p, dt);
            let st = state_at(env, i);
            tick_a(env, st, i as int) == fdivq(
                force_at(m, tick_t(env, i as int)) - fmul(tick_drag(env, st), 500_000),
                mass_at(m, tick_t(env, i as int)),
            )
        }),
{
}

/// The first tick follows the launch formula exactly: with the first
/// boost ignited, the tick-0 acceleration is `(force0 - drag0) / mass
/// - gravity`, the drag computed from the start velocity, and the
/// velocity after tick 0 adds `a0 * dt` to the start velocity.
pub proof fn lemma_first_tick_values(m: MissileSpec, p: LaunchParameter, dt: int)
    requires
        m.valid_spec(),
        m.timefire0 > 0,
    ensures
        ({
            let env = env_of(m, p, dt);
            let v0 = p.start_velocity as int;
            let drag0 = fmul(fmul(fmul(fmul(fmul(v0, v0), rho_spec(p.altitude as int)),
                m.cxk as int), area_spec(m)), 500_000);
            let a0 = fdivq(m.force0 - drag0, m.mass as int) - gravity_spec(p);
            &&& tick_a(env, state_at(env, 0), 0) == a0
            &&& state_at(env, 1).v == v0 + fmul(a0, env.dt)
        }),
{
    let env = env_of(m, p, dt);
    lemma_boost0_mass_at_ignition(m);
    assert(tick_t(env, 0) == 0);
    assert(state_at(env, 1) == tick(env, state_at(env, 0), 0));
}

/// Whether tick `i` trips the splash condition: after its updates the
/// target's accumulated distance is nonzero and behind the missile's.
pub open spec fn splash_trigger(env: SimEnv, i: nat) -> bool {
    let stn = state_at(env, i + 1);
    stn.tgt != 0 && stn.tgt < stn.dist
}

/// The splash flag after `n` ticks is set exactly when some tick
/// tripped the condition, and the recorded distance is the target
/// distance minus the launch-plane distance at the first such tick:
/// first occurrence wins.
pub proof fn lemma_splash_first_occurrence(env: SimEnv, n: nat)
    ensures
        state_at(env, n).splash <==> exists|i: nat| i < n && #[trigger] splash_trigger(env, i),
        forall|i: nat|
            (i < n && #[trigger] splash_trigger(env, i) && (forall|j: nat|
                j < i ==> !splash_trigger(env, j))) ==> state_at(env, n).splash_at == state_at(
                env,
                i + 1,
            ).tgt - state_at(env, i + 1).launch,
    decreases n,
{
    if n == 0 {
        assert(!state_at(env, 0).splash);
    } else {
        let k = (n - 1) as nat;
        lemma_splash_first_occurrence(env, k);
        let st = state_at(env, k);
        let stn = state_at(env, n);
        assert(stn == tick(env, st, k as int));
        if stn.splash {
            if st.splash {
                let w = choose|i: nat| i < k && #[trigger] splash_trigger(env, i);
                assert(w < n && splash_trigger(env, w));
            } else {
                assert(splash_trigger(env, k));
            }
        }
        assert forall|i: nat|
            (i < n && #[trigger] splash_trigger(env, i) && (forall|j: nat|
                j < i ==> !splash_trigger(env, j))) implies stn.splash_at == state_at(env, i + 1).tgt
            - state_at(env, i + 1).launch by {
            if i < k {
                assert(st.splash_at == state_at(env, i + 1).tgt - state_at(env, i + 1).launch);
                assert(st.splash) by {
                    assert(splash_trigger(env, i));
                }
                assert(stn.splash_at == st.splash_at);
            } else {
                assert(i == k);
                assert(!st.splash) by {
                    if st.splash {
                        let w = choose|j: nat| j < k && #[trigger] splash_trigger(env, j);
                        assert(!splash_trigger(env, w));
                        assert(false);
                    }
                }
            }
        }
    }
}

/// Running maximum of a sequence, folded from an initial zero.
pub open spec fn seq_max0(s: Seq<i64>) -> int
    decreases s.len(),
{
    if s.len() == 0 {
        0
    } else {
        let rest = seq_max0(s.drop_last());
        if s.last() > rest {
            s.last() as int
        } else {
            rest
        }
    }
}

/// Running minimum of a sequence, folded from an initial zero.
pub open spec fn seq_min0(s: Seq<i64>) -> int
    decreases s.len(),
{
    if s.len() == 0 {
        0
    } else {
        let rest = seq_min0(s.drop_last());
        if s.last() < rest {
            s.last() as int
        } else {
            rest
        }
    }
}

/// The integrator's running velocity maximum equals the fold of the
/// velocity profile it emitted: the accumulator can be recomputed from
/// the tick sequence alone.
pub proof fn lemma_max_v_is_fold(env: SimEnv, s: Seq<i64>, n: nat)
    requires
        s.len() == n,
        forall|j: int| 0 <= j < n ==> s[j] == state_at(env, (j + 1) as nat).v,
    ensures
        state_at(env, n).max_v == seq_max0(s),
    decreases n,
{
    if n > 0 {
        let k = (n - 1) as nat;
        lemma_max_v_is_fold(env, s.drop_last(), k);
        assert(state_at(env, n) == tick(env, state_at(env, k), k as int));
        assert(s.last() == state_at(env, n).v);
    }
}

/// The integrator's running acceleration maximum equals the fold of
/// the acceleration profile it emitted.
pub proof fn lemma_max_a_is_fold(env: SimEnv, s: Seq<i64>, n: nat)
    requires
        s.len() == n,
        forall|j: int| 0 <= j < n ==> s[j] == tick_a(env, state_at(env, j as nat), j),
    ensures
        state_at(env, n).max_a == seq_max0(s),
    decreases n,
{
    if n > 0 {
        let k = (n - 1) as nat;
        lemma_max_a_is_fold(env, s.drop_last(), k);
        assert(state_at(env, n) == tick(env, state_at(env, k), k as int));
        assert(s.last() == tick_a(env, state_at(env, k), k as int));
    }
}

/// The integrator's running acceleration minimum equals the fold of
/// the acceleration profile it emitted.
pub proof fn lemma_min_a_is_fold(env: SimEnv, s: Seq<i64>, n: nat)
    requires
        s.len() == n,
        forall|j: int| 0 <= j < n ==> s[j] == tick_a(env, state_at(env, j as nat), j),
    ensures
        state_at(env, n).min_a == seq_min0(s),
    decreases n,
{
    if n > 0 {
        let k = (n - 1) as nat;
        lemma_min_a_is_fold(env, s.drop_last(), k);
        assert(state_at(env, n) == tick(env, state_at(env, k), k as int));
        assert(s.last() == tick_a(env, state_at(env, k), k as int));
    }
}

/// Recomputes the running maximum of a profile sequence by a fold, so
/// the accumulated statistic can be checked without re-running the
/// integrator.
pub fn fold_max0(values: &Vec<i64>) -> (r: i64)
    ensures
        r == seq_max0(values@),
{
    let mut acc: i64 = 0;
    let mut idx: usize = 0;
    while idx < values.len()
        invariant
            0 <= idx <= values@.len(),
            acc == seq_max0(values@.subrange(0, idx as int)),
        decreases values@.len() - idx,
    {
        let x = values[idx];
        proof {
            let pre = values@.subrange(0, idx as int);
            let post = values@.subrange(0, idx as int + 1);
            assert(post.drop_last() =~= pre);
            assert(post.last() == values@[idx as int]);
        }
        acc = max_i64(acc, x);
        idx = idx + 1;
    }
    proof {
        assert(values@.subrange(0, values@.len() as int) =~= values@);
    }
    acc
}

/// Recomputes the running minimum of a profile sequence by a fold.
pub fn fold_min0(values: &Vec<i64>) -> (r: i64)
    ensures
        r == seq_min0(values@),
{
    let mut acc: i64 = 0;
    let mut idx: usize = 0;
    while idx < values.len()
        invariant
            0 <= idx <= values@.len(),
            acc == seq_min0(values@.subrange(0, idx as int)),
        decreases values@.len() - idx,
    {
        let x = values[idx];
        proof {
            let pre = values@.subrange(0, idx as int);
            let post = values@.subrange(0, idx as int + 1);
            assert(post.drop_last() =~= pre);
            assert(post.last() == values@[idx as int]);
        }
        acc = min_i64(acc, x);
        idx = idx + 1;
    }
    proof {
        assert(values@.subrange(0, values@.len() as int) =~= values@);
    }
    acc
}

/// Runs the integrator: exactly [`sim_len_spec`] ticks of
/// [`tick`], from [`init_state`].
///
/// The result is a pure function of the three arguments. A degenerate
/// spec or timestep is refused before the loop starts; a tick whose
/// arithmetic would leave the fixed-point range stops the run with an
/// overflow error, and the contract says precisely on which inputs
/// each of the three outcomes happens.
pub fn generate(missile: &MissileSpec, launch_parameters: LaunchParameter, timestep: i64) -> (r:
    Result<LaunchResults, SimError>)
    ensures
        ({
            let env = env_of(*missile, launch_parameters, timestep as int);
            let n = sim_len_spec(missile.timelife as int, timestep as int);
            let fin = state_at(env, n as nat);
            &&& (r is Err) <==> !(missile.valid_spec() && timestep > 0 && prelude_fits(
                *missile,
                timestep as int,
            ) && fits_prefix(env, n as nat))
            &&& !(missile.valid_spec() && timestep > 0) ==> r == Err::<
                LaunchResults,
                SimError,
            >(SimError::DegenerateSpec)
            &&& (missile.valid_spec() && timestep > 0 && r is Err) ==> r == Err::<
                LaunchResults,
                SimError,
            >(SimError::NumericOverflow)
            &&& r is Ok ==> {
                let res = r->Ok_0;
                &&& res.timestep == timestep
                &&& res.parameters == launch_parameters
                &&& res.profile.sim_len == n
                &&& res.profile.a@.len() == n
                &&& res.profile.v@.len() == n
                &&& res.profile.d@.len() == n
                &&& forall|j: int|
                    0 <= j < n ==> res.profile.a@[j] == tick_a(env, state_at(env, j as nat), j)
                &&& forall|j: int|
                    0 <= j < n ==> res.profile.v@[j] == state_at(env, (j + 1) as nat).v
                &&& forall|j: int|
                    0 <= j < n ==> res.profile.d@[j] == state_at(env, (j + 1) as nat).dist
                &&& res.distance_flown == fin.dist
                &&& res.distance_to_missile == fin.launch
                &&& res.splash.splash == fin.splash
                &&& res.splash.at == fin.splash_at
                &&& res.max_v == fin.max_v
                &&& res.max_a == fin.max_a
                &&& res.min_a == fin.min_a
            }
        }),
{
    if timestep <= 0 || !missile.validate() {
        return Err(SimError::DegenerateSpec);
    }
    let ghost env = env_of(*missile, launch_parameters, timestep as int);

    let num: i128 = 2 * (missile.timelife as i128) + (timestep as i128);
    proof {
        lemma_tdiv_magnitude(num as int, 2 * (timestep as int));
    }
    let len128: i128 = div_wide(num, 2 * (timestep as i128));
    if len128 > u32::MAX as i128 {
        return Err(SimError::NumericOverflow);
    }
    let sim_len: u32 = len128 as u32;

    proof {
        lemma_tdiv_magnitude(missile.caliber as int, 2);
    }
    let half_cal: i64 = div_wide(missile.caliber as i128, 2) as i64;
    let hc2: i64 = match fx_mul(half_cal, half_cal) {
        Some(x) => x,
        None => {
            return Err(SimError::NumericOverflow);
        },
    };
    let area: i64 = match fx_mul(PI_MICRO, hc2) {
        Some(x) => x,
        None => {
            return Err(SimError::NumericOverflow);
        },
    };
    let rho: i64 = altitude_to_rho(launch_parameters.altitude);
    let gravity: i64 = if launch_parameters.use_gravity {
        GRAVITY_MICRO
    } else {
        0
    };
    let launch_velocity: i64 = launch_parameters.start_velocity;
    let target_velocity: i64 = launch_parameters.target_speed;

    let mut v: i64 = launch_parameters.start_velocity;
    let mut dist: i64 = 0;
    let mut tgt: i64 = launch_parameters.distance_to_target;
    let mut launch: i64 = 0;
    let mut max_v: i64 = 0;
    let mut max_a: i64 = 0;
    let mut min_a: i64 = 0;
    let mut closest: i64 = i64::MAX;
    let mut splash = Splash { splash: false, at: 0 };
    let mut prof_a: Vec<i64> = Vec::new();
    let mut prof_v: Vec<i64> = Vec::new();
    let mut prof_d: Vec<i64> = Vec::new();
    let mut i: u32 = 0;

    while i < sim_len
        invariant
            missile.valid_spec(),
            timestep > 0,
            env == env_of(*missile, launch_parameters, timestep as int),
            prelude_fits(*missile, timestep as int),
            sim_len == sim_len_spec(missile.timelife as int, timestep as int),
            area == env.area,
            rho == env.rho,
            gravity == env.gravity,
            launch_velocity == env.launch_velocity,
            target_velocity == env.target_velocity,
            0 <= i <= sim_len,
            fits_prefix(env, i as nat),
            v == state_at(env, i as nat).v,
            dist == state_at(env, i as nat).dist,
            tgt == state_at(env, i as nat).tgt,
            launch == state_at(env, i as nat).launch,
            max_v == state_at(env, i as nat).max_v,
            max_a == state_at(env, i as nat).max_a,
            min_a == state_at(env, i as nat).min_a,
            closest == state_at(env, i as nat).closest,
            splash.splash == state_at(env, i as nat).splash,
            splash.at == state_at(env, i as nat).splash_at,
            prof_a@.len() == i,
            prof_v@.len() == i,
            prof_d@.len() == i,
            forall|j: int|
                0 <= j < i ==> prof_a@[j] == tick_a(env, state_at(env, j as nat), j),
            forall|j: int| 0 <= j < i ==> prof_v@[j] == state_at(env, (j + 1) as nat).v,
            forall|j: int| 0 <= j < i ==> prof_d@[j] == state_at(env, (j + 1) as nat).dist,
        decreases sim_len - i,
    {
        let ghost st = state_at(env, i as nat);
        let t: i64 = match mul_wide(i as i64, timestep) {
            Some(x) => x,
            None => {
                proof {
                    assert(!tick_fits(env, st, i as int));
                }
                return Err(SimError::NumericOverflow);
            },
        };
        let v2: i64 = match fx_mul(v, v) {
            Some(x) => x,
            None => {
                proof {
                    assert(!tick_fits(env, st, i as int));
                }
                return Err(SimError::NumericOverflow);
            },
        };
        let q1: i64 = match fx_mul(v2, rho) {
            Some(x) => x,
            None => {
                proof {
                    assert(!tick_fits(env, st, i as int));
                }
                return Err(SimError::NumericOverflow);
            },
        };
        let q2: i64 = match fx_mul(q1, missile.cxk) {
            Some(x) => x,
            None => {
                proof {
                    assert(!tick_fits(env, st, i as int));
                }
                return Err(SimError::NumericOverflow);
            },
        };
        let q3: i64 = match fx_mul(q2, area) {
            Some(x) => x,
            None => {
                proof {
                    assert(!tick_fits(env, st, i as int));
                }
                return Err(SimError::NumericOverflow);
            },
        };
        proof {
            let mag = if q3 >= 0 { q3 as int } else { -(q3 as int) };
            lemma_tdiv_bound((q3 as int) * 500_000, SCALE as int, mag);
        }
        let drag: i64 = crate::fixed::fmul_exec(q3, 500_000);
        proof {
            assert((i as int) * (timestep as int) >= 0) by (nonlinear_arith)
                requires
                    i >= 0,
                    timestep > 0,
            ;
        }
        let (force, mass, _stage): (i64, i64, EngineStage) = match resolve(missile, t) {
            Some(x) => x,
            None => {
                proof {
                    assert(false);
                }
                return Err(SimError::NumericOverflow);
            },
        };
        let diff: i64 = match sub_i64(force, drag) {
            Some(x) => x,
            None => {
                proof {
                    assert(!tick_fits(env, st, i as int));
                }
                return Err(SimError::NumericOverflow);
            },
        };
        let araw: i64 = match fx_div(diff, mass) {
            Some(x) => x,
            None => {
                proof {
                    assert(!tick_fits(env, st, i as int));
                }
                return Err(SimError::NumericOverflow);
            },
        };
        let a: i64 = match sub_i64(araw, gravity) {
            Some(x) => x,
            None => {
                proof {
                    assert(!tick_fits(env, st, i as int));
                }
                return Err(SimError::NumericOverflow);
            },
        };
        let tvdt: i64 = match fx_mul(target_velocity, timestep) {
            Some(x) => x,
            None => {
                proof {
                    assert(!tick_fits(env, st, i as int));
                }
                return Err(SimError::NumericOverflow);
            },
        };
        let tgt2: i64 = match add_i64(tgt, tvdt) {
            Some(x) => x,
            None => {
                proof {
                    assert(!tick_fits(env, st, i as int));
                }
                return Err(SimError::NumericOverflow);
            },
        };
        let lvdt: i64 = match fx_mul(launch_velocity, timestep) {
            Some(x) => x,
            None => {
                proof {
                    assert(!tick_fits(env, st, i as int));
                }
                return Err(SimError::NumericOverflow);
            },
        };
        let launch2: i64 = match add_i64(launch, lvdt) {
            Some(x) => x,
            None => {
                proof {
                    assert(!tick_fits(env, st, i as int));
                }
                return Err(SimError::NumericOverflow);
            },
        };
        let adt: i64 = match fx_mul(a, timestep) {
            Some(x) => x,
            None => {
                proof {
                    assert(!tick_fits(env, st, i as int));
                }
                return Err(SimError::NumericOverflow);
            },
        };
        let vn: i64 = match add_i64(v, adt) {
            Some(x) => x,
            None => {
                proof {
                    assert(!tick_fits(env, st, i as int));
                }
                return Err(SimError::NumericOverflow);
            },
        };
        let vndt: i64 = match fx_mul(vn, timestep) {
            Some(x) => x,
            None => {
                proof {
                    assert(!tick_fits(env, st, i as int));
                }
                return Err(SimError::NumericOverflow);
            },
        };
        let distn: i64 = match add_i64(dist, vndt) {
            Some(x) => x,
            None => {
                proof {
                    assert(!tick_fits(env, st, i as int));
                }
                return Err(SimError::NumericOverflow);
            },
        };
        let closer: i64 = match sub_i64(tgt2, distn) {
            Some(x) => x,
            None => {
                proof {
                    assert(!tick_fits(env, st, i as int));
                }
                return Err(SimError::NumericOverflow);
            },
        };
        if tgt2 != 0 && tgt2 < distn && !splash.splash {
            let at: i64 = match sub_i64(tgt2, launch2) {
                Some(x) => x,
                None => {
                    proof {
                        assert(!tick_fits(env, st, i as int));
                    }
                    return Err(SimError::NumericOverflow);
                },
            };
            splash = Splash { splash: true, at };
        }
        prof_a.push(a);
        prof_v.push(vn);
        prof_d.push(distn);
        v = vn;
        dist = distn;
        tgt = tgt2;
        launch = launch2;
        max_v = max_i64(max_v, vn);
        max_a = max_i64(max_a, a);
        min_a = min_i64(min_a, a);
        closest = min_i64(closest, closer);
        proof {
            assert(tick_fits(env, st, i as int));
            assert(state_at(env, (i + 1) as nat) == tick(env, st, i as int));
            assert(fits_prefix(env, (i + 1) as nat)) by {
                assert(forall|j: nat|
                    j < (i + 1) as nat ==> #[trigger] tick_fits(env, state_at(env, j), j as int))
                    by {
                    assert(forall|j: nat|
                        j < i as nat ==> #[trigger] tick_fits(env, state_at(env, j), j as int));
                }
            }
        }
        i = i + 1;
    }
    Ok(LaunchResults {
        distance_flown: dist,
        distance_to_missile: launch,
        splash,
        max_v,
        max_a,
        min_a,
        timestep,
        profile: Profile { sim_len, a: prof_a, v: prof_v, d: prof_d },
        parameters: launch_parameters,
    })
}

} // verus!

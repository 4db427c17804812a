//! Launch-run parameters, immutable for the duration of one
//! simulation.

use vstd::prelude::*;

verus! {

/// Parameters of a single launch: velocities and distances in
/// micro-units, the altitude in whole metres.
#[derive(Clone, Copy, Debug, PartialEq, Eq, Structural)]
pub struct LaunchParameter {
    /// Whether the constant gravity term is applied each tick.
    pub use_gravity: bool,
    /// Carrier velocity at launch, micro-`m/s`.
    pub start_velocity: i64,
    /// Initial distance to the target, micro-metres; zero means no
    /// target.
    pub distance_to_target: i64,
    /// Target's closing velocity, micro-`m/s`.
    pub target_speed: i64,
    /// Launch altitude, whole metres.
    pub altitude: u32,
}

impl LaunchParameter {
    /// Builds parameters from explicit field values.
    pub fn new_from_parameters(
        use_gravity: bool,
        start_velocity: i64,
        distance_to_target: i64,
        target_speed: i64,
        altitude: u32,
    ) -> (p: LaunchParameter)
        ensures
            p == (LaunchParameter {
                use_gravity,
                start_velocity,
                distance_to_target,
                target_speed,
                altitude,
            }),
    {
        LaunchParameter { use_gravity, start_velocity, distance_to_target, target_speed, altitude }
    }

    /// The default horizontal-launch scenario: Mach 1 at a kilometre of
    /// altitude, no gravity and no target.
    pub fn new_from_default_hor() -> (p: LaunchParameter)
        ensures
            p == (LaunchParameter {
                use_gravity: false,
                start_velocity: 343_000_000i64,
                distance_to_target: 0i64,
                target_speed: 0i64,
                altitude: 1000u32,
            }),
    {
        LaunchParameter {
            use_gravity: false,
            start_velocity: 343_000_000,
            distance_to_target: 0,
            target_speed: 0,
            altitude: 1000,
        }
    }
}

} // verus!

//! Flight-profile simulator for staged-propulsion projectiles.
//!
//! The library computes a missile's flight profile — acceleration,
//! velocity and distance per tick — under staged thrust, quadratic
//! aerodynamic drag, optional gravity and a closing target, together
//! with summary statistics and an in-memory export archive.
//!
//! All physical quantities are carried as fixed-point values: an `i64`
//! holding micro-units (one millionth of the base SI unit), see
//! [`fixed`]. Every arithmetic step of the simulation is specified
//! exactly over mathematical integers, so the integrator's output is
//! pinned down value by value.

pub mod atmosphere;
pub mod catalog;
pub mod csv_export;
pub mod fixed;
pub mod launch_parameters;
pub mod missile;
pub mod numeric;
pub mod params_doc;
pub mod rho;
pub mod runner;

//! Static missile specification, as drawn from an external catalog.

use vstd::prelude::*;

verus! {

/// A missile's static data. Masses, forces, times and lengths are
/// micro-units of kilograms, newtons, seconds and metres.
#[derive(Clone, Debug, PartialEq)]
pub struct MissileSpec {
    /// Catalog name the spec was selected by.
    pub name: String,
    /// Body diameter, micro-metres.
    pub caliber: i64,
    /// Launch mass, micro-kilograms.
    pub mass: i64,
    /// Mass at first-stage burnout, micro-kilograms.
    pub mass_end: i64,
    /// Mass at second-stage burnout, micro-kilograms; zero when the
    /// spec has no terminal mass entry.
    pub mass_end1: i64,
    /// First-stage thrust, micro-newtons.
    pub force0: i64,
    /// Second-stage thrust, micro-newtons.
    pub force1: i64,
    /// First-stage burn time, micro-seconds.
    pub timefire0: i64,
    /// Second-stage burn time, micro-seconds; zero skips the stage.
    pub timefire1: i64,
    /// Total flight time simulated, micro-seconds.
    pub timelife: i64,
    /// Combined drag-coefficient and shape factor, a micro-scaled
    /// dimensionless value used directly in the quadratic drag
    /// formula.
    pub cxk: i64,
    /// Maximal lateral acceleration, micro-`m/s^2`, used for the
    /// exported turning radius.
    pub reqaccelmax: i64,
}

impl MissileSpec {
    /// A degenerate spec is rejected before the simulation starts:
    /// masses must descend to a positive terminal value, stage times
    /// may not be negative, the flight time must be positive, and the
    /// drag inputs may not be negative.
    pub open spec fn valid_spec(self) -> bool {
        &&& self.mass >= self.mass_end
        &&& self.mass_end >= self.mass_end1
        &&& self.mass_end1 >= 0
        &&& self.mass_end > 0
        &&& self.timefire0 >= 0
        &&& self.timefire1 >= 0
        &&& self.timelife > 0
        &&& self.caliber >= 0
        &&& self.cxk >= 0
        &&& self.force0 >= 0
        &&& self.force1 >= 0
    }

    /// Runtime check of [`MissileSpec::valid_spec`].
    pub fn validate(&self) -> (r: bool)
        ensures
            r == self.valid_spec(),
    {
        self.mass >= self.mass_end && self.mass_end >= self.mass_end1 && self.mass_end1 >= 0
            && self.mass_end > 0 && self.timefire0 >= 0 && self.timefire1 >= 0 && self.timelife
            > 0 && self.caliber >= 0 && self.cxk >= 0 && self.force0 >= 0 && self.force1 >= 0
    }

    /// The mass the missile coasts with after burnout: the terminal
    /// mass when the catalog carries one, the first-stage burnout mass
    /// otherwise.
    pub open spec fn terminal_mass_spec(self) -> int {
        if self.mass_end1 > 0 {
            self.mass_end1 as int
        } else {
            self.mass_end as int
        }
    }
}

} // verus!

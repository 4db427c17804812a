//! Selection from an externally supplied missile catalog.

use vstd::prelude::*;
use crate::missile::MissileSpec;

verus! {

/// Whether some catalog entry carries exactly this name.
pub open spec fn has_name(missiles: Seq<MissileSpec>, name: Seq<char>) -> bool {
    exists|i: int| 0 <= i < missiles.len() && (#[trigger] missiles[i].name)@ == name
}

/// Finds the first catalog entry with exactly the given name. A miss
/// is a normal outcome, not a failure: the caller reports and goes
/// on.
pub fn select_by_name(missiles: &Vec<MissileSpec>, name: &String) -> (r: Option<usize>)
    ensures
        r is Some <==> has_name(missiles@, name@),
        r is Some ==> ({
            let i = r->0 as int;
            &&& 0 <= i < missiles@.len()
            &&& missiles@[i].name@ == name@
            &&& forall|j: int| 0 <= j < i ==> (#[trigger] missiles@[j].name)@ != name@
        }),
{
    let mut i: usize = 0;
    while i < missiles.len()
        invariant
            0 <= i <= missiles@.len(),
            forall|j: int| 0 <= j < i ==> (#[trigger] missiles@[j].name)@ != name@,
        decreases missiles@.len() - i,
    {
        if missiles[i].name == *name {
            return Some(i);
        }
        i = i + 1;
    }
    None
}

} // verus!

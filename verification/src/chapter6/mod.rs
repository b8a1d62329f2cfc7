pub mod arc;
pub mod arc_weak;
pub mod arc_weak_opt;
pub mod get_mut_race;

use vstd::prelude::*;

verus! {

/// Runs this chapter's demonstrations; it has none (its behaviour is
/// exercised by the tests).
pub fn run_all() {
}

} // verus!

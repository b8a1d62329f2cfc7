//! The relaxed-ordering demonstration: one thread stores `x = 10` and then
//! `y = 20`, another loads `y` and then `x`, and reports an observation
//! other than "neither store seen" or "both stores seen".
use vstd::prelude::*;

verus! {

/// An observation of the two stores is expected when it saw neither store
/// or both.
pub open spec fn expected(x: i32, y: i32) -> bool {
    (x == 0 && y == 0) || (x == 10 && y == 20)
}

/// Whether the loaded values `(x, y)` are reported as unexpected.
pub fn is_unexpected(x: i32, y: i32) -> (r: bool)
    ensures
        r == !expected(x, y),
{
    !((x == 0 && y == 0) || (x == 10 && y == 20))
}

} // verus!

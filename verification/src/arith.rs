//! Division as the machine does it.

use vstd::prelude::*;

verus! {

/// The quotient of `a` by `b`, rounded toward zero.
pub open spec fn quotient(a: int, b: int) -> int {
    if a >= 0 {
        a / b
    } else {
        -((-a) / b)
    }
}

/// Divides `a` by `b`, rounding toward zero.
pub fn divide(a: i128, b: i128) -> (r: i128)
    requires
        b > 0,
        a > i128::MIN,
    ensures
        r == quotient(a as int, b as int),
{
    a / b
}

} // verus!

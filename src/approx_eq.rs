use vstd::prelude::*;

use crate::approx_eq_dec::ApproxEq;

verus! {

/// Whether `a` and `b` agree once both are rounded to `digits` fraction digits.
pub fn aeq<T: ApproxEq>(a: T, b: T, digits: u8) -> (r: bool)
    ensures
        r == a.approx_eq(&b, digits),
{
    a.aeq(b, digits)
}

} // verus!

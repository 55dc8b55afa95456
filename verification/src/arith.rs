//! Integer helpers shared by the projection and the radar resolver: division
//! with truncation toward zero and with rounding half away from zero, stated
//! exactly over `int`.

use vstd::prelude::*;

verus! {

/// Quotient of `a / b` truncated toward zero (`b > 0`).
pub open spec fn div_trunc(a: int, b: int) -> int {
    if a >= 0 {
        a / b
    } else {
        -((-a) / b)
    }
}

/// Quotient of `a / b` rounded half away from zero (`b > 0`).
pub open spec fn div_round(a: int, b: int) -> int {
    if a >= 0 {
        (a + b / 2) / b
    } else {
        -((-a + b / 2) / b)
    }
}

/// `a / b` truncated toward zero, like Rust's `/` on signed integers.
pub fn i128_div_trunc(a: i128, b: i128) -> (r: i128)
    requires
        b > 0,
        a > i128::MIN,
    ensures
        r == div_trunc(a as int, b as int),
{
    if a >= 0 {
        a / b
    } else {
        -((-a) / b)
    }
}

/// `a / b` rounded half away from zero.
pub fn i128_div_round(a: i128, b: i128) -> (r: i128)
    requires
        b > 0,
        a > i128::MIN / 2,
        a < i128::MAX / 2,
        b < i128::MAX / 2,
    ensures
        r == div_round(a as int, b as int),
{
    if a >= 0 {
        (a + b / 2) / b
    } else {
        -((-a + b / 2) / b)
    }
}

} // verus!

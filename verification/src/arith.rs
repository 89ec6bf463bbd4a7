//! Integer division as Rust performs it on `i32`: rounding toward zero.
use vstd::prelude::*;

verus! {

/// `a / b` rounded toward zero, as Rust divides signed integers.
pub open spec fn trunc_div(a: int, b: int) -> int {
    if (a >= 0) == (b > 0) {
        abs_int(a) / abs_int(b)
    } else {
        -(abs_int(a) / abs_int(b))
    }
}

pub open spec fn abs_int(x: int) -> int {
    if x < 0 { -x } else { x }
}

/// Divides `a` by `b`, rounding toward zero.
pub fn div_toward_zero(a: i32, b: i32) -> (r: i32)
    requires
        b != 0,
        !(a == i32::MIN && b == -1),
    ensures
        r == trunc_div(a as int, b as int),
{
    let aa: i64 = if a < 0 { -(a as i64) } else { a as i64 };
    let bb: i64 = if b < 0 { -(b as i64) } else { b as i64 };
    let q: i64 = aa / bb;
    assert(q <= aa) by (nonlinear_arith)
        requires
            aa >= 0,
            bb >= 1,
            q == aa / bb,
    ;
    assert(bb >= 2 ==> q <= aa / 2) by (nonlinear_arith)
        requires
            aa >= 0,
            bb >= 1,
            q == aa / bb,
    ;
    if (a >= 0) == (b > 0) {
        assert(q <= i32::MAX);
        q as i32
    } else {
        assert(-q >= i32::MIN);
        (-q) as i32
    }
}

} // verus!

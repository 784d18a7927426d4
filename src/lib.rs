//! Evolution: a predator-prey ecosystem of steering agents ("fish") arranged in
//! food-chain tiers.
//!
//! All quantities are fixed-point integers: `geometry::ONE` units make one pixel,
//! one unit of health and a weight of one.
pub mod behavior;
pub mod ecosystem;
pub mod entity;
pub mod fish;

pub mod food;
pub mod geometry;
pub mod random;

pub use entity::Entity;

use vstd::prelude::*;

verus! {

/// Maps `value` from `range1` onto `range2` in reverse: `range1.0` goes to `range2.1`
/// and `range1.1` to `range2.0`, proportionally in between, rounded toward zero.
pub open spec fn inverse_mapped(value: int, range1: (i64, i64), range2: (i64, i64)) -> int {
    range2.1 - geometry::div_tz((range2.1 - range2.0) * (value - range1.0), range1.1 - range1.0)
}

/// Maps `value` from `range1` onto `range2` so that the two are inversely
/// proportional (the inverse of Processing's `map()`).
pub fn inverse_map_range(value: i64, range1: (i64, i64), range2: (i64, i64)) -> (r: i64)
    requires
        range1.0 < range1.1,
        -0x4000_0000 <= value <= 0x4000_0000,
        -0x4000_0000 <= range1.0 <= 0x4000_0000,
        -0x4000_0000 <= range1.1 <= 0x4000_0000,
        -0x4000_0000 <= range2.0 <= 0x4000_0000,
        -0x4000_0000 <= range2.1 <= 0x4000_0000,
    ensures
        r == inverse_mapped(value as int, range1, range2),
{
    let span = range2.1 - range2.0;
    let offset = value - range1.0;
    assert(-0x4000_0000_0000_0000 <= span * offset <= 0x4000_0000_0000_0000) by (nonlinear_arith)
        requires
            -0x8000_0000 <= span <= 0x8000_0000,
            -0x8000_0000 <= offset <= 0x8000_0000,
    ;
    let q = geometry::div_toward_zero(span * offset, range1.1 - range1.0);
    proof {
        lemma_div_tz_bound(span * offset, range1.1 - range1.0);
    }
    range2.1 - q
}

proof fn lemma_div_tz_bound(a: int, b: int)
    requires
        b >= 1,
    ensures
        a >= 0 ==> 0 <= geometry::div_tz(a, b) <= a,
        a < 0 ==> a <= geometry::div_tz(a, b) <= 0,
{
    if a >= 0 {
        assert(0 <= a / b <= a) by (nonlinear_arith)
            requires
                a >= 0,
                b >= 1,
        ;
    } else {
        assert(0 <= (-a) / b <= -a) by (nonlinear_arith)
            requires
                -a > 0,
                b >= 1,
        ;
    }
}

/// Mapping a value of `range1` inversely onto an ordered `range2` lands in `range2`.
pub proof fn lemma_inverse_mapped_in_range(value: int, range1: (i64, i64), range2: (i64, i64))
    requires
        range1.0 < range1.1,
        range1.0 <= value <= range1.1,
        range2.0 <= range2.1,
    ensures
        range2.0 <= inverse_mapped(value, range1, range2) <= range2.1,
{
    let a = (range2.1 - range2.0) * (value - range1.0);
    let b = range1.1 - range1.0;
    assert(0 <= a <= (range2.1 - range2.0) * b) by (nonlinear_arith)
        requires
            a == (range2.1 - range2.0) * (value - range1.0),
            b == range1.1 - range1.0,
            0 <= value - range1.0 <= b,
            range2.1 - range2.0 >= 0,
    ;
    assert(0 <= a / b <= range2.1 - range2.0) by (nonlinear_arith)
        requires
            0 <= a <= (range2.1 - range2.0) * b,
            b >= 1,
    ;
}

} // verus!

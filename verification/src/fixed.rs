//! 16.16 fixed-point numbers.
//!
//! Every real quantity of the engine (positions, direction components,
//! distances, time steps) is an integer that counts units of `1/65536`.
//! A position is measured in grid cells, so its whole part is the cell and
//! its fraction is the offset inside the cell.

use vstd::prelude::*;

verus! {

/// The fixed-point representation of `1.0`.
pub const ONE: i32 = 65536;

/// The fixed-point representation of `0.5`.
pub const HALF: i32 = 32768;

/// The cell that the coordinate `p` falls in: `p / ONE`, rounded down.
pub open spec fn cell_of(p: int) -> int {
    p / (ONE as int)
}

/// The offset of the coordinate `p` inside its cell, in `[0, ONE)`.
pub open spec fn frac_of(p: int) -> int {
    p % (ONE as int)
}

/// `a / d` rounded toward zero, for a positive divisor.
pub open spec fn trunc_div(a: int, d: int) -> int {
    if a >= 0 {
        a / d
    } else {
        -((-a) / d)
    }
}

/// `v` limited to the range of `i32`.
pub open spec fn clamp_i32(v: int) -> int {
    if v < i32::MIN {
        i32::MIN as int
    } else if v > i32::MAX {
        i32::MAX as int
    } else {
        v
    }
}

/// The magnitude of `v`.
pub open spec fn abs(v: int) -> int {
    if v < 0 {
        -v
    } else {
        v
    }
}

/// The product of two bounded integers is bounded by the product of the
/// bounds.
pub proof fn lemma_product_bound(a: int, b: int, max_a: int, max_b: int)
    by (nonlinear_arith)
    requires
        -max_a <= a <= max_a,
        -max_b <= b <= max_b,
    ensures
        -(max_a * max_b) <= a * b <= max_a * max_b,
        0 <= a && 0 <= b ==> 0 <= a * b,
{
}

/// The product of two positive integers is positive.
pub proof fn lemma_product_positive(a: int, b: int)
    by (nonlinear_arith)
    requires
        0 < a,
        0 < b,
    ensures
        0 < a * b,
{
}

/// Dividing a natural number by a positive one makes it no larger and not
/// negative.
pub proof fn lemma_quotient_bound(a: int, d: int)
    requires
        0 <= a,
        0 < d,
    ensures
        0 <= a / d <= a,
{
    vstd::arithmetic::div_mod::lemma_div_pos_is_pos(a, d);
    vstd::arithmetic::div_mod::lemma_div_is_ordered_by_denominator(a, 1, d);
    vstd::arithmetic::div_mod::lemma_div_basics(a);
}

/// Computes the cell of a coordinate.
pub fn cell_index(p: i32) -> (c: i32)
    ensures
        c == cell_of(p as int),
{
    if p >= 0 {
        p / ONE
    } else {
        -((-(p + 1)) / ONE) - 1
    }
}

/// Division that rounds toward negative infinity.
pub fn floor_div(a: i128, d: i128) -> (q: i128)
    requires
        d > 0,
    ensures
        q == a as int / d as int,
{
    if a >= 0 {
        a / d
    } else {
        let m: i128 = -(a + 1);
        proof {
            let qq = m as int / d as int;
            let rr = m as int % d as int;
            assert(m as int == d as int * qq + rr) by {
                vstd::arithmetic::div_mod::lemma_fundamental_div_mod(m as int, d as int);
            }
            assert(0 <= rr < d) by {
                vstd::arithmetic::div_mod::lemma_mod_bound(m as int, d as int);
            }
            lemma_quotient_bound(m as int, d as int);
            assert(a as int == d as int * (-qq - 1) + (d as int - 1 - rr)) by (nonlinear_arith)
                requires
                    m as int == d as int * qq + rr,
                    m as int == -(a as int + 1),
            ;
            vstd::arithmetic::div_mod::lemma_fundamental_div_mod_converse(
                a as int,
                d as int,
                -qq - 1,
                d as int - 1 - rr,
            );
        }
        -(m / d) - 1
    }
}

/// Division that rounds toward zero.
pub fn truncating_div(a: i128, d: i128) -> (q: i128)
    requires
        d > 0,
        a > i128::MIN,
    ensures
        q == trunc_div(a as int, d as int),
{
    if a >= 0 {
        a / d
    } else {
        let m: i128 = -a;
        proof {
            lemma_quotient_bound(m as int, d as int);
        }
        -(m / d)
    }
}

} // verus!

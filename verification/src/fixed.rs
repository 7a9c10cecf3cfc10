//! Fixed-point scalars: every coordinate, texture coordinate and matrix
//! entry in this library is an integer number of millionths of a unit.

use vstd::prelude::*;
use vstd::arithmetic::div_mod::lemma_div_nonincreasing;

verus! {

/// Number of fixed-point steps in 1.0.
pub const SCALE: i64 = 1_000_000;

/// Truncating (round-toward-zero) integer division; the executable code
/// divides signed quantities with exactly this convention.
pub open spec fn div_trunc(a: int, b: int) -> int
    recommends
        b != 0,
{
    if a == 0 {
        0
    } else if a > 0 && b > 0 {
        a / b
    } else if a < 0 && b < 0 {
        (a * -1) / (b * -1)
    } else if a < 0 {
        ((a * -1) / b) * -1
    } else {
        (a / (b * -1)) * -1
    }
}

/// The magnitude of a truncating quotient never exceeds the magnitude of
/// the dividend.
pub proof fn lemma_div_trunc_bound(a: int, b: int)
    requires
        b != 0,
    ensures
        a >= 0 ==> 0 - a <= div_trunc(a, b) <= a,
        a < 0 ==> a <= div_trunc(a, b) <= 0 - a,
{
    if a == 0 {
    } else if a > 0 && b > 0 {
        lemma_div_nonincreasing(a, b);
        vstd::arithmetic::div_mod::lemma_div_pos_is_pos(a, b);
    } else if a < 0 && b < 0 {
        lemma_div_nonincreasing(a * -1, b * -1);
        vstd::arithmetic::div_mod::lemma_div_pos_is_pos(a * -1, b * -1);
    } else if a < 0 {
        lemma_div_nonincreasing(a * -1, b);
        vstd::arithmetic::div_mod::lemma_div_pos_is_pos(a * -1, b);
    } else {
        lemma_div_nonincreasing(a, b * -1);
        vstd::arithmetic::div_mod::lemma_div_pos_is_pos(a, b * -1);
    }
}

/// Truncating division on wide integers.
pub fn div_trunc_i128(a: i128, b: i128) -> (q: i128)
    requires
        b != 0,
        a != i128::MIN,
    ensures
        q == div_trunc(a as int, b as int),
{
    proof {
        lemma_div_trunc_bound(a as int, b as int);
    }
    match a.checked_div(b) {
        Some(q) => q,
        None => {
            proof {
                assert(false);
            }
            0
        },
    }
}

/// A fixed-point 3-vector (positions, normals, tangents).
#[derive(Clone, Copy, Debug, PartialEq, Eq, Structural)]
pub struct Fx3 {
    pub x: i64,
    pub y: i64,
    pub z: i64,
}

/// A fixed-point 2-vector (texture coordinates).
#[derive(Clone, Copy, Debug, PartialEq, Eq, Structural)]
pub struct Fx2 {
    pub u: i64,
    pub v: i64,
}

} // verus!

//! Small helpers on fixed-point scalars.
use vstd::prelude::*;
use crate::fixed::{abs_int, EPSILON};

verus! {

/// The grid to which the coordinates of a mesh are rounded: a hundredth
/// of a world unit.
pub const HUNDREDTH: i64 = 10_000;

/// Whether `f` lies between `f_low` and `f_hi`, both included.
pub fn in_between(f: i64, f_low: i64, f_hi: i64) -> (r: bool)
    ensures
        r == (f_low <= f && f <= f_hi),
{
    f_low <= f && f <= f_hi
}

/// Whether `a` and `b` are equal up to [`EPSILON`].
pub fn approx(a: i64, b: i64) -> (r: bool)
    ensures
        r == (abs_int(a - b) < EPSILON),
{
    let d: i128 = a as i128 - b as i128;
    -(EPSILON as i128) < d && d < EPSILON as i128
}

/// `f` rounded to the nearest hundredth of a world unit, halves away from
/// zero.
pub open spec fn rounded_to_hundredths(f: int) -> int {
    if f >= 0 {
        ((f + 5_000) / 10_000) * 10_000
    } else {
        -((((-f) + 5_000) / 10_000) * 10_000)
    }
}

/// Rounds `f` to the nearest hundredth of a world unit, halves away from
/// zero.
pub fn slice_excess(f: i64) -> (r: i64)
    requires
        abs_int(f as int) <= i64::MAX - 5_000,
    ensures
        r == rounded_to_hundredths(f as int),
        abs_int(r - f) <= 5_000,
{
    if f >= 0 {
        ((f + 5_000) / HUNDREDTH) * HUNDREDTH
    } else {
        -((((-f) + 5_000) / HUNDREDTH) * HUNDREDTH)
    }
}

/// Rounding to hundredths keeps a number within a bound that is itself a
/// whole number of hundredths.
pub proof fn lemma_rounded_within(f: int, k: int)
    requires
        k >= 0,
        abs_int(f) <= k * 10_000,
    ensures
        abs_int(rounded_to_hundredths(f)) <= k * 10_000,
{
    let m = abs_int(f);
    assert((m + 5_000) / 10_000 <= k);
}

} // verus!

//! Three-dimensional vectors.
//!
//! [`Int3`] is the mathematical model: three unbounded integers, on which
//! every contract of the crate is stated. [`Vec3`] is what the machine
//! holds: three `i64` in raw fixed-point units. The same type serves for
//! points and for displacements.
use vstd::prelude::*;
use crate::fixed::{
    abs_int, div_trunc, integer_sqrt, isqrt, lemma_div_trunc_bounds, lemma_div_trunc_le,
    lemma_isqrt_floor, lemma_isqrt_monotone, lemma_isqrt_square, lemma_product_bound, SCALE,
};

verus! {

/// Below this squared length, the eightieth power of two, a vector
/// counts as short.
pub const SHORT_NORM2: i128 = 0x1_0000_0000_0000_0000_0000;

/// The component `c` of a vector of squared length `nn`, divided by the
/// length and held in raw units: `c` times [`SCALE`] over the square root
/// of `nn`, rounded towards zero.
pub open spec fn unit_component(c: int, nn: int) -> int
    recommends
        nn > 0,
{
    if c >= 0 {
        isqrt(((c * c) * 1_000_000_000_000) / nn)
    } else {
        -isqrt(((c * c) * 1_000_000_000_000) / nn)
    }
}

/// A vector of three mathematical integers.
pub struct Int3 {
    pub x: int,
    pub y: int,
    pub z: int,
}

impl Int3 {
    /// The vector with all components zero.
    pub open spec fn zero() -> Int3 {
        Int3 { x: 0, y: 0, z: 0 }
    }

    /// Componentwise sum.
    pub open spec fn plus(self, o: Int3) -> Int3 {
        Int3 { x: self.x + o.x, y: self.y + o.y, z: self.z + o.z }
    }

    /// Componentwise difference.
    pub open spec fn minus(self, o: Int3) -> Int3 {
        Int3 { x: self.x - o.x, y: self.y - o.y, z: self.z - o.z }
    }

    /// The opposite vector.
    pub open spec fn negated(self) -> Int3 {
        Int3 { x: -self.x, y: -self.y, z: -self.z }
    }

    /// Every component multiplied by `k`.
    pub open spec fn scaled(self, k: int) -> Int3 {
        Int3 { x: self.x * k, y: self.y * k, z: self.z * k }
    }

    /// Every component divided by a positive `d`, rounding towards zero.
    pub open spec fn over(self, d: int) -> Int3 {
        Int3 { x: div_trunc(self.x, d), y: div_trunc(self.y, d), z: div_trunc(self.z, d) }
    }

    /// Scalar product.
    pub open spec fn dot(self, o: Int3) -> int {
        self.x * o.x + self.y * o.y + self.z * o.z
    }

    /// Vector product.
    pub open spec fn cross(self, o: Int3) -> Int3 {
        Int3 {
            x: self.y * o.z - self.z * o.y,
            y: self.z * o.x - self.x * o.z,
            z: self.x * o.y - self.y * o.x,
        }
    }

    /// Squared Euclidean length.
    pub open spec fn norm2(self) -> int {
        self.dot(self)
    }

    /// Euclidean length, rounded down.
    pub open spec fn length(self) -> int {
        isqrt(self.norm2())
    }

    /// The unit vector along the vector, in raw units: of length
    /// [`SCALE`] up to rounding. The zero vector stays zero. For a short
    /// vector each component is that of the true unit vector, rounded
    /// towards zero; for a long one each component is scaled by
    /// [`SCALE`] and divided by the rounded-down length, which is as
    /// good to a part in a million millions.
    pub open spec fn normalized(self) -> Int3 {
        if self.norm2() <= 0 {
            Int3::zero()
        } else if self.norm2() < SHORT_NORM2 {
            Int3 {
                x: unit_component(self.x, self.norm2()),
                y: unit_component(self.y, self.norm2()),
                z: unit_component(self.z, self.norm2()),
            }
        } else {
            self.scaled(SCALE as int).over(self.length())
        }
    }

    /// Every component is at most `b` in magnitude.
    pub open spec fn within(self, b: int) -> bool {
        abs_int(self.x) <= b && abs_int(self.y) <= b && abs_int(self.z) <= b
    }

    /// Every component fits an `i64`.
    pub open spec fn fits(self) -> bool {
        self.within(i64::MAX as int)
    }
}

/// The three products of a scalar product, summed by magnitude, fit an
/// `i128`.
pub open spec fn dot_fits(a: Int3, b: Int3) -> bool {
    abs_int(a.x * b.x) + abs_int(a.y * b.y) + abs_int(a.z * b.z) <= i128::MAX
}

/// The squared length is below `2^126`, so that the length fits an `i64`.
pub open spec fn norm_fits(v: Int3) -> bool {
    v.norm2() < 0x4000_0000_0000_0000_0000_0000_0000_0000
}

/// The products of a vector product, summed by magnitude component by
/// component, fit an `i64`.
pub open spec fn cross_fits(a: Int3, b: Int3) -> bool {
    &&& abs_int(a.y * b.z) + abs_int(a.z * b.y) <= i64::MAX
    &&& abs_int(a.z * b.x) + abs_int(a.x * b.z) <= i64::MAX
    &&& abs_int(a.x * b.y) + abs_int(a.y * b.x) <= i64::MAX
}

/// A vector or a point in raw fixed-point units.
#[derive(Clone, Copy, Debug, PartialEq, Eq, Structural)]
pub struct Vec3 {
    pub x: i64,
    pub y: i64,
    pub z: i64,
}

impl View for Vec3 {
    type V = Int3;

    open spec fn view(&self) -> Int3 {
        Int3 { x: self.x as int, y: self.y as int, z: self.z as int }
    }
}

/// The machine vector with the components of `v`, where they fit an
/// `i64`.
pub open spec fn vec3_of(v: Int3) -> Vec3 {
    Vec3 { x: v.x as i64, y: v.y as i64, z: v.z as i64 }
}

/// The magnitude of an `i128` that is not the least one.
pub fn magnitude_wide(a: i128) -> (m: i128)
    requires
        a > i128::MIN,
    ensures
        m == abs_int(a as int),
{
    if a >= 0 {
        a
    } else {
        -a
    }
}

/// `a * k / d`, rounded towards zero, where the result fits an `i64`.
pub fn scale_div(a: i64, k: i64, d: i128) -> (q: i64)
    requires
        d > 0,
        abs_int(div_trunc(a * k, d as int)) <= i64::MAX,
    ensures
        q == div_trunc(a * k, d as int),
{
    assert(-0x4000_0000_0000_0000_0000_0000_0000_0000 <= a * k
        <= 0x4000_0000_0000_0000_0000_0000_0000_0000) by (nonlinear_arith)
        requires
            -0x8000_0000_0000_0000 <= a <= 0x8000_0000_0000_0000,
            -0x8000_0000_0000_0000 <= k <= 0x8000_0000_0000_0000,
    ;
    let p: i128 = (a as i128) * (k as i128);
    let q: i128 = p / d;
    q as i64
}

/// `a * k / d`, rounded towards zero, for a wide factor `k`.
pub fn scale_div_wide(a: i64, k: i128, d: i128) -> (q: i64)
    requires
        d > 0,
        abs_int(a * k) <= i128::MAX,
        abs_int(div_trunc(a * k, d as int)) <= i64::MAX,
    ensures
        q == div_trunc(a * k, d as int),
{
    let p: i128 = (a as i128) * k;
    let q: i128 = p / d;
    q as i64
}

impl Vec3 {
    /// The vector with the given components.
    pub fn new(x: i64, y: i64, z: i64) -> (v: Vec3)
        ensures
            v.x == x,
            v.y == y,
            v.z == z,
    {
        Vec3 { x, y, z }
    }

    /// The zero vector.
    pub fn zero() -> (v: Vec3)
        ensures
            v@ == Int3::zero(),
    {
        Vec3 { x: 0, y: 0, z: 0 }
    }

    /// Whether every component is at most `b` in magnitude.
    pub fn is_within(self, b: i64) -> (r: bool)
        requires
            b >= 0,
        ensures
            r == self@.within(b as int),
    {
        -b <= self.x && self.x <= b && -b <= self.y && self.y <= b && -b <= self.z && self.z <= b
    }

    /// Componentwise sum.
    pub fn plus(self, o: Vec3) -> (v: Vec3)
        requires
            self@.plus(o@).fits(),
        ensures
            v@ == self@.plus(o@),
    {
        Vec3 { x: self.x + o.x, y: self.y + o.y, z: self.z + o.z }
    }

    /// Componentwise difference.
    pub fn minus(self, o: Vec3) -> (v: Vec3)
        requires
            self@.minus(o@).fits(),
        ensures
            v@ == self@.minus(o@),
    {
        Vec3 { x: self.x - o.x, y: self.y - o.y, z: self.z - o.z }
    }

    /// The opposite vector.
    pub fn negated(self) -> (v: Vec3)
        requires
            self@.fits(),
        ensures
            v@ == self@.negated(),
    {
        Vec3 { x: -self.x, y: -self.y, z: -self.z }
    }

    /// Scalar product, exact.
    pub fn dot(self, o: Vec3) -> (d: i128)
        requires
            dot_fits(self@, o@),
        ensures
            d == self@.dot(o@),
    {
        let a: i128 = mul_wide(self.x, o.x);
        let b: i128 = mul_wide(self.y, o.y);
        let c: i128 = mul_wide(self.z, o.z);
        a + b + c
    }

    /// Vector product, exact.
    pub fn cross(self, o: Vec3) -> (v: Vec3)
        requires
            cross_fits(self@, o@),
        ensures
            v@ == self@.cross(o@),
    {
        let x: i128 = mul_wide(self.y, o.z) - mul_wide(self.z, o.y);
        let y: i128 = mul_wide(self.z, o.x) - mul_wide(self.x, o.z);
        let z: i128 = mul_wide(self.x, o.y) - mul_wide(self.y, o.x);
        Vec3 { x: x as i64, y: y as i64, z: z as i64 }
    }

    /// Squared Euclidean length, exact.
    pub fn norm2(self) -> (n: i128)
        requires
            norm_fits(self@),
        ensures
            n == self@.norm2(),
            n >= 0,
    {
        proof {
            lemma_norm2_nonnegative(self@);
        }
        self.dot(self)
    }

    /// Euclidean length, rounded down.
    pub fn length(self) -> (l: i64)
        requires
            norm_fits(self@),
        ensures
            l == self@.length(),
            l >= 0,
    {
        let n: i128 = self.norm2();
        let r: u64 = integer_sqrt(n as u128);
        proof {
            assert(r < 0x8000_0000_0000_0000) by (nonlinear_arith)
                requires
                    r * r <= n,
                    n < 0x4000_0000_0000_0000_0000_0000_0000_0000,
                    r >= 0,
            ;
        }
        r as i64
    }

    /// Every component multiplied by `k` and divided by `d`, rounding
    /// towards zero.
    pub fn scaled_over(self, k: i64, d: i128) -> (v: Vec3)
        requires
            d > 0,
            self@.scaled(k as int).over(d as int).fits(),
        ensures
            v@ == self@.scaled(k as int).over(d as int),
    {
        Vec3 {
            x: scale_div(self.x, k, d),
            y: scale_div(self.y, k, d),
            z: scale_div(self.z, k, d),
        }
    }

    /// Every component multiplied by a wide `k` and divided by `d`,
    /// rounding towards zero.
    pub fn scaled_over_wide(self, k: i128, d: i128) -> (v: Vec3)
        requires
            d > 0,
            self@.scaled(k as int).within(i128::MAX as int),
            self@.scaled(k as int).over(d as int).fits(),
        ensures
            v@ == self@.scaled(k as int).over(d as int),
    {
        Vec3 {
            x: scale_div_wide(self.x, k, d),
            y: scale_div_wide(self.y, k, d),
            z: scale_div_wide(self.z, k, d),
        }
    }

    /// The unit vector along the vector; the zero vector stays zero.
    pub fn normalized(self) -> (v: Vec3)
        requires
            norm_fits(self@),
        ensures
            v@ == self@.normalized(),
            v@.within(SCALE as int),
    {
        let nn: i128 = self.norm2();
        proof {
            lemma_normalized_within(self@);
            lemma_norm2_nonnegative(self@);
        }
        if nn == 0 {
            Vec3 { x: 0, y: 0, z: 0 }
        } else if nn < SHORT_NORM2 {
            Vec3 {
                x: unit_component_of(self.x, nn),
                y: unit_component_of(self.y, nn),
                z: unit_component_of(self.z, nn),
            }
        } else {
            let l: i64 = self.length();
            proof {
                lemma_long_length(self@);
            }
            self.scaled_over(SCALE, l as i128)
        }
    }
}

/// One component of the unit vector along a short vector.
fn unit_component_of(c: i64, nn: i128) -> (q: i64)
    requires
        0 < nn < SHORT_NORM2,
        c * c <= nn,
    ensures
        q == unit_component(c as int, nn as int),
{
    proof {
        lemma_unit_component_le(c as int, nn as int);
        lemma_square_below(c as int, 0xFF_FFFF_FFFF);
    }
    let a: u128 = if c >= 0 {
        c as u128
    } else {
        (-c) as u128
    };
    assert(a * a == c * c) by (nonlinear_arith)
        requires
            a == abs_int(c as int),
    ;
    assert((a * a) * 1_000_000_000_000 < 0x1_0000_0000_0000_0000_0000_0000_0000_0000)
        by (nonlinear_arith)
        requires
            a * a < 0x1_0000_0000_0000_0000_0000,
    ;
    let r: u64 = integer_sqrt((a * a * 1_000_000_000_000) / (nn as u128));
    if c >= 0 {
        r as i64
    } else {
        -(r as i64)
    }
}

/// The exact product of two `i64`.
pub fn mul_wide(a: i64, b: i64) -> (p: i128)
    ensures
        p == a * b,
{
    assert(-0x4000_0000_0000_0000_0000_0000_0000_0000 <= a * b
        <= 0x4000_0000_0000_0000_0000_0000_0000_0000) by (nonlinear_arith)
        requires
            -0x8000_0000_0000_0000 <= a <= 0x8000_0000_0000_0000,
            -0x8000_0000_0000_0000 <= b <= 0x8000_0000_0000_0000,
    ;
    (a as i128) * (b as i128)
}

/// A squared length is not negative, and bounds the square of each
/// component.
pub proof fn lemma_norm2_nonnegative(v: Int3)
    ensures
        v.norm2() >= 0,
        v.x * v.x >= 0,
        v.y * v.y >= 0,
        v.z * v.z >= 0,
        v.x * v.x <= v.norm2(),
        v.y * v.y <= v.norm2(),
        v.z * v.z <= v.norm2(),
        v.norm2() == 0 <==> v == Int3::zero(),
{
    assert(v.x * v.x >= 0 && (v.x * v.x == 0 ==> v.x == 0)) by (nonlinear_arith);
    assert(v.y * v.y >= 0 && (v.y * v.y == 0 ==> v.y == 0)) by (nonlinear_arith);
    assert(v.z * v.z >= 0 && (v.z * v.z == 0 ==> v.z == 0)) by (nonlinear_arith);
}

/// No component of a vector exceeds its rounded-down length by one or
/// more.
pub proof fn lemma_component_le_length(v: Int3)
    ensures
        v.within(v.length()),
{
    lemma_norm2_nonnegative(v);
    lemma_isqrt_floor(v.norm2());
    let l = v.length();
    lemma_square_below(v.x, l);
    lemma_square_below(v.y, l);
    lemma_square_below(v.z, l);
}

/// An integer whose square is below `(l + 1)^2` is at most `l` in
/// magnitude.
pub proof fn lemma_square_below(c: int, l: int)
    requires
        l >= 0,
        c * c < (l + 1) * (l + 1),
    ensures
        abs_int(c) <= l,
{
    if c > l {
        assert(c * c >= (l + 1) * (l + 1)) by (nonlinear_arith)
            requires
                c >= l + 1,
                l >= 0,
        ;
    }
    if c < -l {
        assert(c * c >= (l + 1) * (l + 1)) by (nonlinear_arith)
            requires
                c <= -(l + 1),
                l >= 0,
        ;
    }
}

/// A long vector is at least the fortieth power of two long.
pub proof fn lemma_long_length(v: Int3)
    requires
        v.norm2() >= SHORT_NORM2,
    ensures
        v.length() >= 0x100_0000_0000,
{
    assert(0x100_0000_0000int * 0x100_0000_0000int == 0x1_0000_0000_0000_0000_0000int)
        by (nonlinear_arith);
    lemma_isqrt_square(0x100_0000_0000);
    lemma_isqrt_monotone(0x1_0000_0000_0000_0000_0000, v.norm2());
}

/// A component of a unit vector is at most [`SCALE`] in magnitude.
pub proof fn lemma_unit_component_le(c: int, nn: int)
    requires
        nn > 0,
        c * c <= nn,
    ensures
        abs_int(unit_component(c, nn)) <= SCALE,
        0 <= ((c * c) * 1_000_000_000_000) / nn <= 1_000_000_000_000,
{
    let x = (c * c) * 1_000_000_000_000;
    assert(c * c >= 0) by (nonlinear_arith);
    assert(0 <= x / nn <= 1_000_000_000_000) by (nonlinear_arith)
        requires
            nn > 0,
            0 <= x <= nn * 1_000_000_000_000,
    ;
    lemma_isqrt_monotone(0, x / nn);
    lemma_isqrt_monotone(x / nn, 1_000_000_000_000);
    assert(1_000_000int * 1_000_000int == 1_000_000_000_000int) by (nonlinear_arith);
    lemma_isqrt_square(1_000_000);
}

/// The unit vector along a horizontal vector is horizontal.
pub proof fn lemma_normalized_flat(v: Int3)
    requires
        v.y == 0,
    ensures
        v.normalized().y == 0,
{
    lemma_norm2_nonnegative(v);
    if v.norm2() <= 0 {
    } else if v.norm2() < SHORT_NORM2 {
        let nn = v.norm2();
        assert((0int * 0int) * 1_000_000_000_000 == 0) by (nonlinear_arith);
        assert(0int / nn == 0) by (nonlinear_arith)
            requires
                nn > 0,
        ;
    } else {
        lemma_long_length(v);
        lemma_div_trunc_bounds(0, v.length());
        assert(0 * SCALE == 0);
    }
}

/// A normalized vector has no component beyond [`SCALE`].
pub proof fn lemma_normalized_within(v: Int3)
    ensures
        v.normalized().within(SCALE as int),
{
    lemma_norm2_nonnegative(v);
    if v.norm2() <= 0 {
    } else if v.norm2() < SHORT_NORM2 {
        lemma_unit_component_le(v.x, v.norm2());
        lemma_unit_component_le(v.y, v.norm2());
        lemma_unit_component_le(v.z, v.norm2());
    } else {
        let l = v.length();
        lemma_long_length(v);
        lemma_component_le_length(v);
        lemma_scaled_component(v.x, l);
        lemma_scaled_component(v.y, l);
        lemma_scaled_component(v.z, l);
    }
}

/// A component no longer than `l`, scaled and divided by `l`, is at most
/// [`SCALE`].
proof fn lemma_scaled_component(c: int, l: int)
    requires
        l > 0,
        abs_int(c) <= l,
    ensures
        abs_int(div_trunc(c * SCALE, l)) <= SCALE,
{
    assert(abs_int(c * SCALE) <= SCALE * l) by (nonlinear_arith)
        requires
            abs_int(c) <= l,
            SCALE == 1_000_000,
    ;
    lemma_div_trunc_le(c * SCALE, l, SCALE as int);
}

/// The scalar product of two bounded vectors is bounded by three times
/// the product of the bounds.
pub proof fn lemma_dot_bound(a: Int3, b: Int3, ma: int, mb: int)
    requires
        a.within(ma),
        b.within(mb),
    ensures
        abs_int(a.dot(b)) <= 3 * (ma * mb),
        abs_int(a.x * b.x) + abs_int(a.y * b.y) + abs_int(a.z * b.z) <= 3 * (ma * mb),
        3 * (ma * mb) <= i128::MAX ==> dot_fits(a, b),
{
    lemma_product_bound(a.x, b.x, ma, mb);
    lemma_product_bound(a.y, b.y, ma, mb);
    lemma_product_bound(a.z, b.z, ma, mb);
}

/// The vector product of two bounded vectors is bounded by twice the
/// product of the bounds.
pub proof fn lemma_cross_bound(a: Int3, b: Int3, ma: int, mb: int)
    requires
        a.within(ma),
        b.within(mb),
    ensures
        a.cross(b).within(2 * (ma * mb)),
        2 * (ma * mb) <= i64::MAX ==> cross_fits(a, b),
{
    lemma_product_bound(a.y, b.z, ma, mb);
    lemma_product_bound(a.z, b.y, ma, mb);
    lemma_product_bound(a.z, b.x, ma, mb);
    lemma_product_bound(a.x, b.z, ma, mb);
    lemma_product_bound(a.x, b.y, ma, mb);
    lemma_product_bound(a.y, b.x, ma, mb);
}

/// The squared length of a bounded vector is at most three times the
/// square of the bound.
pub proof fn lemma_norm2_bound(a: Int3, m: int)
    requires
        a.within(m),
    ensures
        0 <= a.norm2() <= 3 * (m * m),
        3 * (m * m) < 0x4000_0000_0000_0000_0000_0000_0000_0000 ==> norm_fits(a),
{
    lemma_dot_bound(a, a, m, m);
    lemma_norm2_nonnegative(a);
}

/// The difference of two bounded vectors is bounded by the sum of the
/// bounds.
pub proof fn lemma_minus_bound(a: Int3, b: Int3, ma: int, mb: int)
    requires
        a.within(ma),
        b.within(mb),
    ensures
        a.minus(b).within(ma + mb),
        a.plus(b).within(ma + mb),
{
}

} // verus!

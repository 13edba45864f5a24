//! Triangles, planes, segments and rays.
use vstd::prelude::*;
use crate::fixed::{
    abs_int, div_trunc, lemma_div_trunc_bounds, lemma_div_trunc_le, lemma_div_trunc_remainder,
    lemma_isqrt_floor, lemma_product_bound, COORD_MAX, EPSILON, REACH, SCALE,
};
use crate::math::approx;
use crate::vector::{
    dot_fits, lemma_component_le_length, lemma_cross_bound, lemma_dot_bound, lemma_minus_bound,
    lemma_long_length, lemma_norm2_bound, lemma_norm2_nonnegative, lemma_normalized_flat,
    lemma_normalized_within,
    lemma_square_below, lemma_unit_component_le, magnitude_wide, mul_wide, unit_component,
    vec3_of, Int3, Vec3, SHORT_NORM2,
};

verus! {

/// How far the squared length of a unit normal may lie from the square of
/// [`SCALE`]: what rounding each component towards zero can cost.
pub const UNIT_SLACK: i64 = 6_000_000;

/// The vector is a unit vector up to rounding.
pub open spec fn near_unit(n: Int3) -> bool {
    abs_int(n.norm2() - SCALE * SCALE) <= UNIT_SLACK
}

/// The exact, unnormalized normal of the triangle `p0 p1 p2`: the vector
/// product of its first two edges. Its length is twice the area.
pub open spec fn edge_normal(p0: Int3, p1: Int3, p2: Int3) -> Int3 {
    p1.minus(p0).cross(p2.minus(p0))
}

/// A triangle of the static world, with its unit normal and its area.
#[derive(Clone, Copy, Debug)]
pub struct Triangle {
    pub p0: Vec3,
    pub p1: Vec3,
    pub p2: Vec3,
    /// Unit normal, by the winding of the vertices.
    pub normal: Vec3,
    /// Area, in raw units times world units.
    pub area: i64,
}

impl Triangle {
    /// The exact, unnormalized normal, from the vertices.
    pub open spec fn raw_normal(self) -> Int3 {
        edge_normal(self.p0@, self.p1@, self.p2@)
    }

    /// The vertices lie in the world and the stored normal is a unit
    /// vector up to rounding.
    pub open spec fn wf(self) -> bool {
        &&& self.p0@.within(COORD_MAX as int)
        &&& self.p1@.within(COORD_MAX as int)
        &&& self.p2@.within(COORD_MAX as int)
        &&& near_unit(self.normal@)
    }

    /// The triangle on three vertices. The normal is the normalized vector
    /// product of the edges `p1 - p0` and `p2 - p0`, the area half its
    /// length. The triangle is well formed unless its vertices lie on one
    /// line, which leaves it with the zero vector for a normal.
    pub fn new(p0: Vec3, p1: Vec3, p2: Vec3) -> (t: Triangle)
        requires
            p0@.within(COORD_MAX as int),
            p1@.within(COORD_MAX as int),
            p2@.within(COORD_MAX as int),
        ensures
            t.p0 == p0,
            t.p1 == p1,
            t.p2 == p2,
            t.normal@ == edge_normal(p0@, p1@, p2@).normalized(),
            t.area == edge_normal(p0@, p1@, p2@).length() / (2 * SCALE),
            t.wf() <==> edge_normal(p0@, p1@, p2@) != Int3::zero(),
    {
        proof {
            lemma_minus_bound(p1@, p0@, COORD_MAX as int, COORD_MAX as int);
            lemma_minus_bound(p2@, p0@, COORD_MAX as int, COORD_MAX as int);
            lemma_cross_bound(p1@.minus(p0@), p2@.minus(p0@), 2 * COORD_MAX, 2 * COORD_MAX);
            lemma_norm2_bound(edge_normal(p0@, p1@, p2@), 2 * ((2 * COORD_MAX) * (2 * COORD_MAX)));
        }
        let c: Vec3 = p1.minus(p0).cross(p2.minus(p0));
        let l: i64 = c.length();
        let normal: Vec3 = c.normalized();
        proof {
            lemma_norm2_nonnegative(c@);
            if c@ != Int3::zero() {
                lemma_normalized_near_unit(c@);
            } else {
                assert(SCALE * SCALE == 1_000_000_000_000) by (nonlinear_arith)
                    requires
                        SCALE == 1_000_000,
                ;
            }
        }
        Triangle { p0, p1, p2, normal, area: l / (2 * SCALE) }
    }
}

/// One component of a normalized vector, against the exact quotient: with
/// `q` the component `c` scaled and divided by the length `l`,
/// `l^2 q^2` lies between `c^2 SCALE^2 - 2 SCALE l^2` and
/// `c^2 SCALE^2 + l^2`.
proof fn lemma_unit_component(c: int, l: int)
    requires
        l > 0,
        abs_int(c) <= l,
    ensures
        ({
            let q = div_trunc(c * SCALE, l);
            &&& (l * l) * (q * q) <= 1_000_000_000_000 * (c * c) + l * l
            &&& (l * l) * (q * q) >= 1_000_000_000_000 * (c * c) - 2_000_000 * (l * l)
        }),
{
    let a = c * SCALE;
    let q = div_trunc(a, l);
    let r = a - l * q;
    lemma_div_trunc_remainder(a, l);
    assert(abs_int(r) < l);
    assert(a >= 0 ==> r >= 0);
    assert(a <= 0 ==> r <= 0);
    let cr = c * r;
    let rr = r * r;
    let ll = l * l;
    assert(0 <= cr <= ll) by (nonlinear_arith)
        requires
            cr == c * r,
            ll == l * l,
            abs_int(c) <= l,
            abs_int(r) < l,
            (c >= 0 && r >= 0) || (c <= 0 && r <= 0),
    ;
    assert(0 <= rr <= ll) by (nonlinear_arith)
        requires
            rr == r * r,
            ll == l * l,
            abs_int(r) < l,
    ;
    assert(ll * (q * q) == 1_000_000_000_000 * (c * c) - 2_000_000 * cr + rr) by (nonlinear_arith)
        requires
            l * q == c * 1_000_000 - r,
            cr == c * r,
            rr == r * r,
            ll == l * l,
    ;
}

/// Normalizing a long vector gives a unit vector up to rounding.
proof fn lemma_long_near_unit(v: Int3)
    requires
        v.norm2() >= SHORT_NORM2,
    ensures
        near_unit(v.normalized()),
{
    let l = v.length();
    let n = v.normalized();
    lemma_long_length(v);
    lemma_norm2_nonnegative(v);
    lemma_isqrt_floor(v.norm2());
    lemma_component_le_length(v);
    lemma_unit_component(v.x, l);
    lemma_unit_component(v.y, l);
    lemma_unit_component(v.z, l);
    let l2 = l * l;
    let nn = v.norm2();
    let x = n.norm2();
    let ax = l2 * (n.x * n.x);
    let ay = l2 * (n.y * n.y);
    let az = l2 * (n.z * n.z);
    let lx = l2 * x;
    assert(lx == ax + ay + az) by (nonlinear_arith)
        requires
            lx == l2 * x,
            ax == l2 * (n.x * n.x),
            ay == l2 * (n.y * n.y),
            az == l2 * (n.z * n.z),
            x == n.x * n.x + n.y * n.y + n.z * n.z,
    ;
    assert(nn == v.x * v.x + v.y * v.y + v.z * v.z);
    assert(lx <= 1_000_000_000_000 * nn + 3 * l2);
    assert(lx >= 1_000_000_000_000 * nn - 6_000_000 * l2);
    assert(nn <= l2 + 2 * l) by (nonlinear_arith)
        requires
            nn < (l + 1) * (l + 1),
            l2 == l * l,
    ;
    assert(l2 >= 1_000_000 * l && l2 > 0) by (nonlinear_arith)
        requires
            l >= 1_000_000,
            l2 == l * l,
    ;
    assert(lx <= 1_000_002_000_003 * l2);
    assert(lx >= 999_994_000_000 * l2);
    assert(x <= 1_000_002_000_003) by (nonlinear_arith)
        requires
            lx == l2 * x,
            lx <= 1_000_002_000_003 * l2,
            l2 > 0,
    ;
    assert(x >= 999_994_000_000) by (nonlinear_arith)
        requires
            lx == l2 * x,
            lx >= 999_994_000_000 * l2,
            l2 > 0,
    ;
    assert(SCALE * SCALE == 1_000_000_000_000) by (nonlinear_arith)
        requires
            SCALE == 1_000_000,
    ;
}

/// One component of the unit vector along a short vector, against the
/// true one: with `q` the component, `q^2 nn` is at most `c^2 SCALE^2`,
/// which is less than `(|q| + 1)^2 nn`.
proof fn lemma_short_component(c: int, nn: int)
    requires
        nn > 0,
        c * c <= nn,
    ensures
        ({
            let q = unit_component(c, nn);
            &&& (q * q) * nn <= 1_000_000_000_000 * (c * c)
            &&& ((abs_int(q) + 1) * (abs_int(q) + 1)) * nn > 1_000_000_000_000 * (c * c)
            &&& abs_int(q) <= 1_000_000
        }),
{
    let x = (c * c) * 1_000_000_000_000;
    let a = x / nn;
    let q = unit_component(c, nn);
    let r = abs_int(q);
    lemma_unit_component_le(c, nn);
    lemma_isqrt_floor(a);
    assert(c * c >= 0) by (nonlinear_arith);
    assert(a * nn <= x && x < (a + 1) * nn) by (nonlinear_arith)
        requires
            nn > 0,
            x >= 0,
            a == x / nn,
    ;
    let rr = r * r;
    let r1 = (r + 1) * (r + 1);
    assert(q * q == rr) by (nonlinear_arith)
        requires
            r == abs_int(q),
            rr == r * r,
    ;
    assert(rr * nn <= a * nn && (a + 1) * nn <= r1 * nn) by (nonlinear_arith)
        requires
            rr <= a,
            a + 1 <= r1,
            nn > 0,
    ;
}

/// Normalizing a short vector that is not zero gives a unit vector up to
/// rounding.
proof fn lemma_short_near_unit(v: Int3)
    requires
        0 < v.norm2() < SHORT_NORM2,
    ensures
        near_unit(v.normalized()),
{
    let nn = v.norm2();
    let n = v.normalized();
    lemma_norm2_nonnegative(v);
    lemma_short_component(v.x, nn);
    lemma_short_component(v.y, nn);
    lemma_short_component(v.z, nn);
    let (qx, qy, qz) = (abs_int(n.x), abs_int(n.y), abs_int(n.z));
    let x = n.norm2();
    let (sx, sy, sz) = (n.x * n.x, n.y * n.y, n.z * n.z);
    let (tx, ty, tz) = ((qx + 1) * (qx + 1), (qy + 1) * (qy + 1), (qz + 1) * (qz + 1));
    assert(x * nn == sx * nn + sy * nn + sz * nn) by (nonlinear_arith)
        requires
            x == sx + sy + sz,
    ;
    assert((tx + ty + tz) * nn == tx * nn + ty * nn + tz * nn) by (nonlinear_arith);
    assert(x * nn <= 1_000_000_000_000 * nn);
    assert((tx + ty + tz) * nn > 1_000_000_000_000 * nn);
    assert(x <= 1_000_000_000_000) by (nonlinear_arith)
        requires
            x * nn <= 1_000_000_000_000 * nn,
            nn > 0,
    ;
    assert(tx + ty + tz > 1_000_000_000_000) by (nonlinear_arith)
        requires
            (tx + ty + tz) * nn > 1_000_000_000_000 * nn,
            nn > 0,
    ;
    assert(sx == qx * qx && sy == qy * qy && sz == qz * qz) by (nonlinear_arith)
        requires
            qx == abs_int(n.x),
            qy == abs_int(n.y),
            qz == abs_int(n.z),
            sx == n.x * n.x,
            sy == n.y * n.y,
            sz == n.z * n.z,
    ;
    assert(tx == sx + 2 * qx + 1 && ty == sy + 2 * qy + 1 && tz == sz + 2 * qz + 1)
        by (nonlinear_arith)
        requires
            tx == (qx + 1) * (qx + 1),
            ty == (qy + 1) * (qy + 1),
            tz == (qz + 1) * (qz + 1),
            sx == qx * qx,
            sy == qy * qy,
            sz == qz * qz,
    ;
    assert(SCALE * SCALE == 1_000_000_000_000) by (nonlinear_arith)
        requires
            SCALE == 1_000_000,
    ;
}

/// Normalizing a vector that is not zero gives a unit vector up to
/// rounding.
pub proof fn lemma_normalized_near_unit(v: Int3)
    requires
        v != Int3::zero(),
    ensures
        near_unit(v.normalized()),
{
    lemma_norm2_nonnegative(v);
    if v.norm2() < SHORT_NORM2 {
        lemma_short_near_unit(v);
    } else {
        lemma_long_near_unit(v);
    }
}

/// A unit vector up to rounding has no component beyond `SCALE + 2`.
pub proof fn lemma_near_unit_within(n: Int3)
    requires
        near_unit(n),
    ensures
        n.within(SCALE + 2),
{
    lemma_norm2_nonnegative(n);
    assert((SCALE + 3) * (SCALE + 3) > SCALE * SCALE + UNIT_SLACK) by (nonlinear_arith)
        requires
            SCALE == 1_000_000,
            UNIT_SLACK == 6_000_000,
    ;
    lemma_square_below(n.x, SCALE + 2);
    lemma_square_below(n.y, SCALE + 2);
    lemma_square_below(n.z, SCALE + 2);
}

/// The signed offset of `p` from the plane through `t.p0` with normal
/// `t.normal`, in raw units times [`SCALE`]: positive on the side the
/// normal points to.
pub open spec fn plane_offset(p: Int3, t: Triangle) -> int {
    p.minus(t.p0@).dot(t.normal@)
}

/// The unsigned distance of `p` from the plane of `t`, rounded down.
pub open spec fn plane_distance(p: Int3, t: Triangle) -> int {
    abs_int(plane_offset(p, t)) / (SCALE as int)
}

/// `p` moved along the normal of `t` by its plane distance, towards the
/// plane.
pub open spec fn plane_projection(p: Int3, t: Triangle) -> Int3 {
    let step = t.normal@.scaled(plane_distance(p, t)).over(SCALE as int);
    if plane_offset(p, t) > 0 {
        p.minus(step)
    } else {
        p.plus(step)
    }
}

/// On which side of the directed edge `a b` the point `p` lies, seen
/// against the direction `n`: the triple product of `b - a`, `p - a` and
/// `n`. It is positive on the left of the edge for an observer whom `n`
/// points at.
pub open spec fn edge_side(a: Int3, b: Int3, p: Int3, n: Int3) -> int {
    b.minus(a).cross(p.minus(a)).dot(n)
}

/// The orthogonal projection of `p` onto the plane of the triangle
/// `p0 p1 p2` lies in the closed triangle, and the triangle is not
/// degenerate.
pub open spec fn in_triangle(p: Int3, p0: Int3, p1: Int3, p2: Int3) -> bool {
    let n = edge_normal(p0, p1, p2);
    &&& n != Int3::zero()
    &&& edge_side(p0, p1, p, n) >= 0
    &&& edge_side(p1, p2, p, n) >= 0
    &&& edge_side(p2, p0, p, n) >= 0
}

/// [`in_triangle`] for the vertices of `t`.
pub open spec fn inside_triangle(p: Int3, t: Triangle) -> bool {
    in_triangle(p, t.p0@, t.p1@, t.p2@)
}

/// The plane offset of a bounded point is bounded.
pub proof fn lemma_plane_offset_bound(p: Int3, t: Triangle, m: int)
    requires
        p.within(m),
        t.wf(),
    ensures
        abs_int(plane_offset(p, t)) <= 3 * ((m + COORD_MAX) * (SCALE + 2)),
        3 * ((m + COORD_MAX) * (SCALE + 2)) <= i128::MAX ==> dot_fits(p.minus(t.p0@), t.normal@),
        plane_distance(p, t) <= 4 * (m + COORD_MAX),
        plane_distance(p, t) >= 0,
{
    lemma_near_unit_within(t.normal@);
    lemma_minus_bound(p, t.p0@, m, COORD_MAX as int);
    lemma_dot_bound(p.minus(t.p0@), t.normal@, m + COORD_MAX, SCALE + 2);
    let b = m + COORD_MAX;
    assert(3 * (b * (SCALE + 2)) <= 4 * b * SCALE) by (nonlinear_arith)
        requires
            b >= 0,
            SCALE == 1_000_000,
    ;
    let a = abs_int(plane_offset(p, t));
    assert(a / (SCALE as int) <= 4 * b) by (nonlinear_arith)
        requires
            0 <= a <= 4 * b * SCALE,
            SCALE == 1_000_000,
    ;
}

/// The signed plane offset, exact.
pub fn point_triangle_plane_offset(point: Vec3, triangle: Triangle) -> (s: i128)
    requires
        point@.within(REACH as int),
        triangle.wf(),
    ensures
        s == plane_offset(point@, triangle),
        abs_int(s as int) <= 13_500_027_000_000_000,
{
    proof {
        lemma_plane_offset_bound(point@, triangle, REACH as int);
    }
    point.minus(triangle.p0).dot(triangle.normal)
}

/// The unsigned distance of `point` from the plane of `triangle`.
pub fn point_triangle_plane_distance(point: Vec3, triangle: Triangle) -> (d: i64)
    requires
        point@.within(REACH as int),
        triangle.wf(),
    ensures
        d == plane_distance(point@, triangle),
        0 <= d <= 13_500_027_000,
{
    let s: i128 = point_triangle_plane_offset(point, triangle);
    let m: i128 = magnitude_wide(s);
    (m / (SCALE as i128)) as i64
}

/// Whether `point` lies strictly on the side of the plane of `triangle`
/// that the normal points to.
pub fn point_triangle_plane_side(point: Vec3, triangle: Triangle) -> (same: bool)
    requires
        point@.within(REACH as int),
        triangle.wf(),
    ensures
        same == (plane_offset(point@, triangle) > 0),
{
    point_triangle_plane_offset(point, triangle) > 0
}

/// A projection moves no component by more than twice the plane
/// distance.
pub proof fn lemma_projection_step(p: Int3, t: Triangle)
    requires
        t.wf(),
        0 <= plane_distance(p, t) <= 100_000_000_000_000,
    ensures
        plane_projection(p, t).minus(p).within(2 * plane_distance(p, t)),
        t.normal@.scaled(plane_distance(p, t)).over(SCALE as int).within(2 * plane_distance(p, t)),
{
    let d = plane_distance(p, t);
    let n = t.normal@;
    lemma_near_unit_within(n);
    lemma_step_component(n.x, d);
    lemma_step_component(n.y, d);
    lemma_step_component(n.z, d);
}

/// One component of a unit vector times a length `d`, brought back to
/// scale, is at most `2 d` in magnitude.
pub proof fn lemma_step_component(c: int, d: int)
    requires
        abs_int(c) <= SCALE + 2,
        0 <= d <= 100_000_000_000_000,
    ensures
        abs_int(div_trunc(c * d, SCALE as int)) <= 2 * d,
{
    lemma_product_bound(c, d, SCALE + 2, d);
    assert((SCALE + 2) * d <= (2 * d) * SCALE) by (nonlinear_arith)
        requires
            0 <= d <= 100_000_000_000_000,
            SCALE == 1_000_000,
    ;
    lemma_div_trunc_le(c * d, SCALE as int, 2 * d);
}

/// Moves `point` along the normal of `triangle` onto its plane.
pub fn project_point_on_triangle_plane(point: Vec3, triangle: Triangle) -> (q: Vec3)
    requires
        point@.within(REACH as int),
        triangle.wf(),
    ensures
        q@ == plane_projection(point@, triangle),
        q@.minus(point@).within(2 * plane_distance(point@, triangle)),
{
    let d: i64 = point_triangle_plane_distance(point, triangle);
    proof {
        lemma_projection_step(point@, triangle);
    }
    let step: Vec3 = triangle.normal.scaled_over(d, SCALE as i128);
    if point_triangle_plane_side(point, triangle) {
        point.minus(step)
    } else {
        point.plus(step)
    }
}

/// The triple product that places `p` against the directed edge `a b` of
/// a triangle with exact normal `n`.
fn edge_side_of(a: Vec3, b: Vec3, p: Vec3, n: Vec3) -> (s: i128)
    requires
        a@.within(COORD_MAX as int),
        b@.within(COORD_MAX as int),
        p@.within(REACH as int),
        n@.within(2_000_000_000_000_000_000),
    ensures
        s == edge_side(a@, b@, p@, n@),
{
    proof {
        lemma_minus_bound(b@, a@, COORD_MAX as int, COORD_MAX as int);
        lemma_minus_bound(p@, a@, REACH as int, COORD_MAX as int);
        lemma_cross_bound(b@.minus(a@), p@.minus(a@), 2 * COORD_MAX, REACH + COORD_MAX);
        lemma_dot_bound(
            b@.minus(a@).cross(p@.minus(a@)),
            n@,
            2 * ((2 * COORD_MAX) * (REACH + COORD_MAX)),
            2_000_000_000_000_000_000,
        );
    }
    b.minus(a).cross(p.minus(a)).dot(n)
}

/// Whether `point`, which lies on the plane of `tri` up to [`EPSILON`],
/// lies in the closed triangle. A point off the plane is not accepted: a
/// caller that holds one has lost track of its geometry.
pub fn is_point_in_triangle(point: Vec3, tri: Triangle) -> (inside: bool)
    requires
        point@.within(REACH as int),
        tri.wf(),
        plane_distance(point@, tri) <= EPSILON,
    ensures
        inside == inside_triangle(point@, tri),
{
    proof {
        lemma_minus_bound(tri.p1@, tri.p0@, COORD_MAX as int, COORD_MAX as int);
        lemma_minus_bound(tri.p2@, tri.p0@, COORD_MAX as int, COORD_MAX as int);
        lemma_cross_bound(tri.p1@.minus(tri.p0@), tri.p2@.minus(tri.p0@), 2 * COORD_MAX, 2 * COORD_MAX);
    }
    let n: Vec3 = tri.p1.minus(tri.p0).cross(tri.p2.minus(tri.p0));
    if n.x == 0 && n.y == 0 && n.z == 0 {
        return false;
    }
    edge_side_of(tri.p0, tri.p1, point, n) >= 0
        && edge_side_of(tri.p1, tri.p2, point, n) >= 0
        && edge_side_of(tri.p2, tri.p0, point, n) >= 0
}

/// Where the foot of the perpendicular from `p` falls along the segment
/// `a b`: the scalar product of `p - a` with `b - a`. It is zero at `a`
/// and the squared length of the segment at `b`.
pub open spec fn segment_parameter(p: Int3, a: Int3, b: Int3) -> int {
    p.minus(a).dot(b.minus(a))
}

/// The foot of the perpendicular from `p` to the line through `a` and `b`
/// falls strictly between `a` and `b`.
pub open spec fn projects_inside_segment(p: Int3, a: Int3, b: Int3) -> bool {
    0 < segment_parameter(p, a, b) < b.minus(a).norm2()
}

/// The point of the segment `a b` nearest to `p`: the foot of the
/// perpendicular where it falls strictly inside the segment, each
/// component rounded towards `a`; else the nearer end, and `b` where both
/// are equally near.
pub open spec fn closest_on_segment(p: Int3, a: Int3, b: Int3) -> Int3 {
    if projects_inside_segment(p, a, b) {
        a.plus(b.minus(a).scaled(segment_parameter(p, a, b)).over(b.minus(a).norm2()))
    } else if p.minus(a).norm2() < p.minus(b).norm2() {
        a
    } else {
        b
    }
}

/// The distance between two points, rounded down.
pub open spec fn distance(p: Int3, q: Int3) -> int {
    p.minus(q).length()
}

/// The point of the boundary of `t` nearest to `p`, edge by edge: the
/// first of the three nearest points, on `p0 p1`, `p1 p2` and `p2 p0`,
/// whose rounded distance from `p` is least.
pub open spec fn closest_on_triangle(p: Int3, t: Triangle) -> Int3 {
    let q1 = closest_on_segment(p, t.p0@, t.p1@);
    let q2 = closest_on_segment(p, t.p1@, t.p2@);
    let q3 = closest_on_segment(p, t.p2@, t.p0@);
    if distance(p, q1) <= distance(p, q2) && distance(p, q1) <= distance(p, q3) {
        q1
    } else if distance(p, q2) <= distance(p, q3) {
        q2
    } else {
        q3
    }
}

/// The point halfway from `a` to `b`, each component rounded towards `a`.
pub open spec fn midpoint_of(a: Int3, b: Int3) -> Int3 {
    a.plus(b.minus(a).over(2))
}

/// The least squared length, in raw units, of a normal that still
/// defines a plane: that of a hundredth of a world unit.
pub const NORMAL_MIN_NORM2: i64 = 100_000_000;

/// `v` without its component along `n`; `v` itself where `n` is shorter
/// than a hundredth of a world unit.
pub open spec fn vector_on_plane(v: Int3, n: Int3) -> Int3 {
    if n.norm2() < NORMAL_MIN_NORM2 {
        v
    } else {
        v.minus(n.scaled(v.dot(n)).over(n.norm2()))
    }
}

/// The least squared length, in raw units, of a horizontal component
/// that still has a direction.
pub const HORIZONTAL_MIN_NORM2: i64 = 10_000_000;

/// The horizontal part of `v`: its `y` set to zero.
pub open spec fn horizontal_part(v: Int3) -> Int3 {
    Int3 { x: v.x, y: 0, z: v.z }
}

/// The unit vector along the horizontal part of `v`, and `None` where
/// that part is too short to have a direction.
pub open spec fn horizontal_direction(v: Int3) -> Option<Int3> {
    if horizontal_part(v).norm2() < HORIZONTAL_MIN_NORM2 {
        None
    } else {
        Some(horizontal_part(v).normalized())
    }
}

/// A fraction `t / ee` between zero and one of a component `e` lies
/// between zero and `e`.
proof fn lemma_fraction_component(e: int, t: int, ee: int)
    requires
        0 < t < ee,
    ensures
        abs_int(div_trunc(e * t, ee)) <= abs_int(e),
        e >= 0 ==> div_trunc(e * t, ee) >= 0,
        e <= 0 ==> div_trunc(e * t, ee) <= 0,
{
    assert(abs_int(e * t) <= abs_int(e) * ee && (e >= 0 ==> e * t >= 0) && (e <= 0 ==> e * t <= 0))
        by (nonlinear_arith)
        requires
            0 < t < ee,
    ;
    lemma_div_trunc_le(e * t, ee, abs_int(e));
    lemma_div_trunc_bounds(e * t, ee);
}

/// The nearest point of a segment lies in the box spanned by its ends.
pub proof fn lemma_closest_on_segment_within(p: Int3, a: Int3, b: Int3, m: int)
    requires
        a.within(m),
        b.within(m),
    ensures
        closest_on_segment(p, a, b).within(m),
{
    if projects_inside_segment(p, a, b) {
        let e = b.minus(a);
        let t = segment_parameter(p, a, b);
        let ee = e.norm2();
        lemma_fraction_component(e.x, t, ee);
        lemma_fraction_component(e.y, t, ee);
        lemma_fraction_component(e.z, t, ee);
    }
}

/// Whether the foot of the perpendicular from `point` to the line through
/// `p0` and `p1` falls strictly between the two.
pub fn is_projection_on_line_segment(point: Vec3, p0: Vec3, p1: Vec3) -> (inside: bool)
    requires
        point@.within(REACH as int),
        p0@.within(REACH as int),
        p1@.within(REACH as int),
    ensures
        inside == projects_inside_segment(point@, p0@, p1@),
{
    proof {
        lemma_minus_bound(p1@, p0@, REACH as int, REACH as int);
        lemma_minus_bound(point@, p0@, REACH as int, REACH as int);
        lemma_dot_bound(point@.minus(p0@), p1@.minus(p0@), 2 * REACH, 2 * REACH);
        lemma_norm2_bound(p1@.minus(p0@), 2 * REACH);
    }
    let e: Vec3 = p1.minus(p0);
    let t: i128 = point.minus(p0).dot(e);
    let ee: i128 = e.norm2();
    0 < t && t < ee
}

/// The distance between two points, rounded down.
pub fn distance_between(p: Vec3, q: Vec3) -> (d: i64)
    requires
        p@.within(REACH as int),
        q@.within(REACH as int),
    ensures
        d == distance(p@, q@),
        0 <= d,
{
    proof {
        lemma_minus_bound(p@, q@, REACH as int, REACH as int);
        lemma_norm2_bound(p@.minus(q@), 2 * REACH);
    }
    p.minus(q).length()
}

/// The point of the segment `p0 p1` nearest to `point`, and its distance
/// from `point`.
pub fn get_closest_point_on_line_segment(point: Vec3, p0: Vec3, p1: Vec3) -> (r: (Vec3, i64))
    requires
        point@.within(REACH as int),
        p0@.within(REACH as int),
        p1@.within(REACH as int),
    ensures
        r.0@ == closest_on_segment(point@, p0@, p1@),
        r.1 == distance(point@, r.0@),
        r.0@.within(REACH as int),
        0 <= r.1,
{
    proof {
        lemma_minus_bound(p1@, p0@, REACH as int, REACH as int);
        lemma_minus_bound(point@, p0@, REACH as int, REACH as int);
        lemma_minus_bound(point@, p1@, REACH as int, REACH as int);
        lemma_dot_bound(point@.minus(p0@), p1@.minus(p0@), 2 * REACH, 2 * REACH);
        lemma_norm2_bound(p1@.minus(p0@), 2 * REACH);
        lemma_norm2_bound(point@.minus(p0@), 2 * REACH);
        lemma_norm2_bound(point@.minus(p1@), 2 * REACH);
        lemma_closest_on_segment_within(point@, p0@, p1@, REACH as int);
    }
    let e: Vec3 = p1.minus(p0);
    let t: i128 = point.minus(p0).dot(e);
    let ee: i128 = e.norm2();
    if 0 < t && t < ee {
        proof {
            lemma_fraction_component(e.x as int, t as int, ee as int);
            lemma_fraction_component(e.y as int, t as int, ee as int);
            lemma_fraction_component(e.z as int, t as int, ee as int);
            lemma_product_bound(e.x as int, t as int, 2 * REACH, 3 * ((2 * REACH) * (2 * REACH)));
            lemma_product_bound(e.y as int, t as int, 2 * REACH, 3 * ((2 * REACH) * (2 * REACH)));
            lemma_product_bound(e.z as int, t as int, 2 * REACH, 3 * ((2 * REACH) * (2 * REACH)));
        }
        let q: Vec3 = p0.plus(e.scaled_over_wide(t, ee));
        (q, distance_between(point, q))
    } else {
        let n0: i128 = point.minus(p0).norm2();
        let n1: i128 = point.minus(p1).norm2();
        if n0 < n1 {
            (p0, distance_between(point, p0))
        } else {
            (p1, distance_between(point, p1))
        }
    }
}

/// The point of the boundary of `triangle` nearest to `point`, edge by
/// edge, and its distance from `point`.
pub fn get_closest_point_on_triangle(point: Vec3, triangle: Triangle) -> (r: (Vec3, i64))
    requires
        point@.within(REACH as int),
        triangle.wf(),
    ensures
        r.0@ == closest_on_triangle(point@, triangle),
        r.1 == distance(point@, r.0@),
        r.0@.within(COORD_MAX as int),
        0 <= r.1,
{
    proof {
        lemma_closest_on_segment_within(point@, triangle.p0@, triangle.p1@, COORD_MAX as int);
        lemma_closest_on_segment_within(point@, triangle.p1@, triangle.p2@, COORD_MAX as int);
        lemma_closest_on_segment_within(point@, triangle.p2@, triangle.p0@, COORD_MAX as int);
    }
    let (q1, d1) = get_closest_point_on_line_segment(point, triangle.p0, triangle.p1);
    let (q2, d2) = get_closest_point_on_line_segment(point, triangle.p1, triangle.p2);
    let (q3, d3) = get_closest_point_on_line_segment(point, triangle.p2, triangle.p0);
    if d1 <= d2 && d1 <= d3 {
        (q1, d1)
    } else if d2 <= d3 {
        (q2, d2)
    } else {
        (q3, d3)
    }
}

/// The point halfway from `p0` to `p1`.
pub fn midpoint(p0: Vec3, p1: Vec3) -> (m: Vec3)
    requires
        p0@.within(REACH as int),
        p1@.within(REACH as int),
    ensures
        m@ == midpoint_of(p0@, p1@),
        m@.minus(p0@).within(REACH as int),
{
    proof {
        lemma_minus_bound(p1@, p0@, REACH as int, REACH as int);
        lemma_div_trunc_bounds(p1.x - p0.x, 2);
        lemma_div_trunc_bounds(p1.y - p0.y, 2);
        lemma_div_trunc_bounds(p1.z - p0.z, 2);
    }
    let e: Vec3 = p1.minus(p0);
    p0.plus(Vec3 { x: e.x / 2, y: e.y / 2, z: e.z / 2 })
}

/// The product of two numbers whose squares sum to at most `2 * nn` is at
/// most `nn` in magnitude.
proof fn lemma_pair_product(a: int, b: int, nn: int)
    requires
        a * a + b * b <= 2 * nn,
    ensures
        abs_int(a * b) <= nn,
{
    assert(2 * (a * b) <= a * a + b * b && -2 * (a * b) <= a * a + b * b) by (nonlinear_arith);
}

/// One component of the part of `v` along `n`, before the division: it is
/// at most `3 m` times the squared length of `n`.
proof fn lemma_along_component(c: int, v: Int3, n: Int3, m: int)
    requires
        v.within(m),
        c * c + n.x * n.x <= 2 * n.norm2(),
        c * c + n.y * n.y <= 2 * n.norm2(),
        c * c + n.z * n.z <= 2 * n.norm2(),
    ensures
        abs_int(c * v.dot(n)) <= (3 * m) * n.norm2(),
{
    let nn = n.norm2();
    lemma_pair_product(c, n.x, nn);
    lemma_pair_product(c, n.y, nn);
    lemma_pair_product(c, n.z, nn);
    lemma_product_bound(v.x, c * n.x, m, nn);
    lemma_product_bound(v.y, c * n.y, m, nn);
    lemma_product_bound(v.z, c * n.z, m, nn);
    let d = v.dot(n);
    let (vx, vy, vz) = (v.x, v.y, v.z);
    let (nx, ny, nz) = (n.x, n.y, n.z);
    let (px, py, pz) = (vx * nx, vy * ny, vz * nz);
    assert(c * px == vx * (c * nx)) by (nonlinear_arith)
        requires
            px == vx * nx,
    ;
    assert(c * py == vy * (c * ny)) by (nonlinear_arith)
        requires
            py == vy * ny,
    ;
    assert(c * pz == vz * (c * nz)) by (nonlinear_arith)
        requires
            pz == vz * nz,
    ;
    assert(c * d == c * px + c * py + c * pz) by (nonlinear_arith)
        requires
            d == px + py + pz,
    ;
    assert((3 * m) * nn == 3 * (m * nn)) by (nonlinear_arith);
}

/// The part of `v` along `n` has no component beyond three times the
/// largest of `v`.
pub proof fn lemma_along_within(v: Int3, n: Int3, m: int)
    requires
        v.within(m),
        n.norm2() > 0,
    ensures
        n.scaled(v.dot(n)).over(n.norm2()).within(3 * m),
        vector_on_plane(v, n).within(4 * m),
        abs_int(n.x * v.dot(n)) <= (3 * m) * n.norm2(),
        abs_int(n.y * v.dot(n)) <= (3 * m) * n.norm2(),
        abs_int(n.z * v.dot(n)) <= (3 * m) * n.norm2(),
{
    lemma_norm2_nonnegative(n);
    lemma_along_component(n.x, v, n, m);
    lemma_along_component(n.y, v, n, m);
    lemma_along_component(n.z, v, n, m);
    lemma_div_trunc_le(n.x * v.dot(n), n.norm2(), 3 * m);
    lemma_div_trunc_le(n.y * v.dot(n), n.norm2(), 3 * m);
    lemma_div_trunc_le(n.z * v.dot(n), n.norm2(), 3 * m);
}

/// `v` without its component along `n`: what is left of a velocity that
/// may not leave the plane with normal `n`. A normal shorter than a
/// hundredth of a world unit leaves `v` as it is.
pub fn project_vector_on_plane(v: Vec3, n: Vec3) -> (r: Vec3)
    requires
        v@.within(REACH as int),
        n@.within(REACH as int),
    ensures
        r@ == vector_on_plane(v@, n@),
        r@.within(4 * REACH),
{
    proof {
        lemma_norm2_bound(n@, REACH as int);
        lemma_dot_bound(v@, n@, REACH as int, REACH as int);
    }
    let sqr_mag: i128 = n.norm2();
    if sqr_mag < NORMAL_MIN_NORM2 as i128 {
        return v;
    }
    let along: i128 = v.dot(n);
    proof {
        lemma_along_within(v@, n@, REACH as int);
        assert((3 * REACH) * n@.norm2() <= i128::MAX) by (nonlinear_arith)
            requires
                0 <= n@.norm2() <= 3 * (REACH * REACH),
                REACH == 4_000_000_000,
        ;
    }
    v.minus(n.scaled_over_wide(along, sqr_mag))
}

/// The unit vector along the horizontal part of `v`, and `None` where
/// that part is too short to have a direction.
pub fn horz_norm(v: &Vec3) -> (r: Option<Vec3>)
    requires
        v@.within(REACH as int),
    ensures
        match r {
            Some(d) => horizontal_direction(v@) == Some(d@) && d@.within(SCALE as int) && d.y == 0,
            None => horizontal_direction(v@).is_none(),
        },
{
    let h: Vec3 = Vec3 { x: v.x, y: 0, z: v.z };
    proof {
        lemma_norm2_bound(h@, REACH as int);
        lemma_normalized_flat(h@);
    }
    if h.norm2() < HORIZONTAL_MIN_NORM2 as i128 {
        None
    } else {
        Some(h.normalized())
    }
}

/// Quotient of `a` by a non-zero `b`, rounded towards zero.
pub open spec fn div_trunc_any(a: int, b: int) -> int
    recommends
        b != 0,
{
    if b > 0 {
        div_trunc(a, b)
    } else {
        div_trunc(-a, -b)
    }
}

/// Largest magnitude of a component of a ray direction: sixteen world
/// units. Up to it the point where a ray meets a plane lies on the plane
/// up to [`EPSILON`], whatever rounding does to the point.
pub const MAX_DIRECTION: i64 = 16_000_000;

/// The scalar product of a ray direction with the normal of `t`, in raw
/// units times [`SCALE`].
pub open spec fn ray_denominator(dir: Int3, t: Triangle) -> int {
    dir.dot(t.normal@)
}

/// The signed offset of the plane of `t` from the origin of a ray, along
/// the normal, in raw units times [`SCALE`].
pub open spec fn ray_numerator(orig: Int3, t: Triangle) -> int {
    t.p0@.minus(orig).dot(t.normal@)
}

/// The ray runs along the plane of `t`: the scalar product of its
/// direction with the normal is zero up to [`EPSILON`].
pub open spec fn ray_is_parallel(dir: Int3, t: Triangle) -> bool {
    abs_int(ray_denominator(dir, t)) / (SCALE as int) < EPSILON
}

/// The parameter at which the ray from `orig` along `dir` meets the plane
/// of `t`, in fixed point and rounded towards zero.
pub open spec fn ray_parameter(orig: Int3, dir: Int3, t: Triangle) -> int {
    div_trunc_any(ray_numerator(orig, t) * SCALE, ray_denominator(dir, t))
}

/// The point of the ray from `orig` along `dir` at the parameter `k`.
pub open spec fn ray_point(orig: Int3, dir: Int3, k: int) -> Int3 {
    orig.plus(dir.scaled(k).over(SCALE as int))
}

/// Where the ray from `orig` along `dir` hits `t`: the parameter of the
/// point where it meets the plane, if the ray does not run along the
/// plane, the plane is not behind it, and that point lies within
/// [`REACH`] and in the triangle.
pub open spec fn ray_hit(orig: Int3, dir: Int3, t: Triangle) -> Option<int> {
    if ray_is_parallel(dir, t) {
        None
    } else if ray_parameter(orig, dir, t) < 0 {
        None
    } else {
        let k = ray_parameter(orig, dir, t);
        let h = ray_point(orig, dir, k);
        if h.within(REACH as int) && inside_triangle(h, t) {
            Some(k)
        } else {
            None
        }
    }
}

/// Scaling one factor of a scalar product scales the product.
pub proof fn lemma_scaled_dot(c: Int3, k: int, n: Int3)
    ensures
        c.scaled(k).dot(n) == k * c.dot(n),
{
    let (cx, cy, cz) = (c.x, c.y, c.z);
    let (nx, ny, nz) = (n.x, n.y, n.z);
    let (px, py, pz) = (cx * nx, cy * ny, cz * nz);
    assert((cx * k) * nx == k * px) by (nonlinear_arith)
        requires
            px == cx * nx,
    ;
    assert((cy * k) * ny == k * py) by (nonlinear_arith)
        requires
            py == cy * ny,
    ;
    assert((cz * k) * nz == k * pz) by (nonlinear_arith)
        requires
            pz == cz * nz,
    ;
    let d = c.dot(n);
    assert(k * d == k * px + k * py + k * pz) by (nonlinear_arith)
        requires
            d == px + py + pz,
    ;
}

/// A scalar product is additive in its first factor.
pub proof fn lemma_dot_plus(a: Int3, b: Int3, n: Int3)
    ensures
        a.plus(b).dot(n) == a.dot(n) + b.dot(n),
        a.minus(b).dot(n) == a.dot(n) - b.dot(n),
{
    let (ax, ay, az) = (a.x, a.y, a.z);
    let (bx, by, bz) = (b.x, b.y, b.z);
    let (nx, ny, nz) = (n.x, n.y, n.z);
    assert((ax + bx) * nx == ax * nx + bx * nx) by (nonlinear_arith);
    assert((ay + by) * ny == ay * ny + by * ny) by (nonlinear_arith);
    assert((az + bz) * nz == az * nz + bz * nz) by (nonlinear_arith);
    assert((ax - bx) * nx == ax * nx - bx * nx) by (nonlinear_arith);
    assert((ay - by) * ny == ay * ny - by * ny) by (nonlinear_arith);
    assert((az - bz) * nz == az * nz - bz * nz) by (nonlinear_arith);
}

/// What rounding costs one term of a scalar product: with `q` the
/// product `c k` brought back to scale, `SCALE q n` misses `c k n` by
/// less than `SCALE` times the magnitude of `n`.
proof fn lemma_rounded_term(c: int, k: int, n: int)
    requires
        abs_int(n) <= SCALE + 2,
    ensures
        abs_int(1_000_000 * (div_trunc(c * k, SCALE as int) * n) - (c * k) * n)
            <= 1_000_000_999_998,
{
    let a = c * k;
    let q = div_trunc(a, SCALE as int);
    let r = a - SCALE * q;
    lemma_div_trunc_remainder(a, SCALE as int);
    assert(abs_int(r) <= 999_999);
    lemma_product_bound(r, n, 999_999, 1_000_002);
    let qn = q * n;
    let an = a * n;
    let rn = r * n;
    assert(1_000_000 * qn == an - rn) by (nonlinear_arith)
        requires
            r == a - 1_000_000 * q,
            qn == q * n,
            an == a * n,
            rn == r * n,
    ;
}

/// What rounding costs a scalar product: the scalar product of `c k`
/// brought back to scale with a unit vector `n`, times `SCALE`, misses
/// `k` times the scalar product of `c` and `n` by about three times the
/// square of `SCALE` at most.
pub proof fn lemma_rounded_dot(c: Int3, k: int, n: Int3)
    requires
        n.within(SCALE + 2),
    ensures
        abs_int(1_000_000 * c.scaled(k).over(SCALE as int).dot(n) - k * c.dot(n))
            <= 3_000_002_999_994,
{
    lemma_rounded_term(c.x, k, n.x);
    lemma_rounded_term(c.y, k, n.y);
    lemma_rounded_term(c.z, k, n.z);
    lemma_scaled_dot(c, k, n);
}

/// A point no farther than sixteen world units from the plane of a well
/// formed triangle is projected onto the plane up to [`EPSILON`].
pub proof fn lemma_projection_on_plane(p: Int3, t: Triangle)
    requires
        t.wf(),
        plane_distance(p, t) <= 16 * SCALE,
    ensures
        plane_distance(plane_projection(p, t), t) <= EPSILON,
{
    let n = t.normal@;
    let s = plane_offset(p, t);
    let d = plane_distance(p, t);
    let q = n.scaled(d).over(SCALE as int);
    let nn = n.norm2();
    lemma_near_unit_within(n);
    lemma_rounded_dot(n, d, n);
    let x = 1_000_000 * q.dot(n);
    let dnn = d * nn;
    assert(abs_int(x - dnn) <= 3_000_002_999_994);
    assert(SCALE * SCALE == 1_000_000_000_000) by (nonlinear_arith)
        requires
            SCALE == 1_000_000,
    ;
    assert(abs_int(dnn - 1_000_000_000_000 * d) <= 6_000_000 * d) by (nonlinear_arith)
        requires
            dnn == d * nn,
            abs_int(nn - 1_000_000_000_000) <= 6_000_000,
            d >= 0,
    ;
    if s > 0 {
        lemma_dot_plus(p.minus(q).minus(t.p0@), q, n);
        assert(p.minus(q).minus(t.p0@).plus(q) == p.minus(t.p0@));
        let s1 = plane_offset(plane_projection(p, t), t);
        assert(s1 == s - q.dot(n));
        assert(abs_int(1_000_000 * s1) <= 100_000_003_000_000);
    } else {
        lemma_dot_plus(p.minus(t.p0@), q, n);
        assert(p.plus(q).minus(t.p0@) == p.minus(t.p0@).plus(q));
        let s1 = plane_offset(plane_projection(p, t), t);
        assert(s1 == s + q.dot(n));
        assert(abs_int(1_000_000 * s1) <= 100_000_003_000_000);
    }
}

/// What a quotient rounded towards zero leaves over is smaller than the
/// divisor, whatever the signs.
pub proof fn lemma_div_trunc_any_remainder(a: int, b: int)
    requires
        b != 0,
    ensures
        abs_int(a - b * div_trunc_any(a, b)) < abs_int(b),
{
    if b > 0 {
        lemma_div_trunc_remainder(a, b);
    } else {
        lemma_div_trunc_remainder(-a, -b);
        let q = div_trunc(-a, -b);
        assert((-b) * q == -(b * q)) by (nonlinear_arith);
    }
}

/// The point where a ray meets the plane of a well formed triangle lies
/// on the plane up to [`EPSILON`].
pub proof fn lemma_ray_point_on_plane(orig: Int3, dir: Int3, t: Triangle)
    requires
        t.wf(),
        dir.within(MAX_DIRECTION as int),
        ray_denominator(dir, t) != 0,
    ensures
        plane_distance(ray_point(orig, dir, ray_parameter(orig, dir, t)), t) <= EPSILON,
{
    let n = t.normal@;
    let num = ray_numerator(orig, t);
    let den = ray_denominator(dir, t);
    let k = ray_parameter(orig, dir, t);
    let h = dir.scaled(k).over(SCALE as int);
    lemma_near_unit_within(n);
    lemma_rounded_dot(dir, k, n);
    lemma_div_trunc_any_remainder(num * SCALE, den);
    lemma_dot_bound(dir, n, MAX_DIRECTION as int, SCALE + 2);
    let x = 1_000_000 * h.dot(n);
    let kden = k * den;
    assert(abs_int(x - kden) <= 3_000_002_999_994);
    assert(den * k == kden) by (nonlinear_arith)
        requires
            kden == k * den,
    ;
    assert(abs_int(1_000_000 * num - kden) < 48_000_096_000_000);
    lemma_dot_plus(orig.minus(t.p0@), h, n);
    assert(orig.plus(h).minus(t.p0@) == orig.minus(t.p0@).plus(h));
    lemma_dot_plus(Int3::zero(), t.p0@.minus(orig), n);
    assert(Int3::zero().minus(t.p0@.minus(orig)) == orig.minus(t.p0@));
    let s1 = plane_offset(ray_point(orig, dir, k), t);
    assert(s1 == h.dot(n) - num);
    assert(abs_int(1_000_000 * s1) <= 52_000_000_000_000);
}

/// Where the ray from `ray_orig` along `ray_dir` hits `triangle`: the
/// parameter of the hit along the ray, in fixed point; `None` where the
/// ray runs along the plane, where the plane lies behind it, and where it
/// meets the plane outside the triangle.
pub fn ray_triangle_check(ray_orig: Vec3, ray_dir: Vec3, triangle: Triangle) -> (hit: Option<i64>)
    requires
        ray_orig@.within(REACH as int),
        ray_dir@.within(MAX_DIRECTION as int),
        triangle.wf(),
    ensures
        match hit {
            Some(k) => ray_hit(ray_orig@, ray_dir@, triangle) == Some(k as int),
            None => ray_hit(ray_orig@, ray_dir@, triangle).is_none(),
        },
{
    proof {
        lemma_near_unit_within(triangle.normal@);
        lemma_dot_bound(ray_dir@, triangle.normal@, MAX_DIRECTION as int, SCALE + 2);
        lemma_minus_bound(triangle.p0@, ray_orig@, COORD_MAX as int, REACH as int);
        lemma_dot_bound(
            triangle.p0@.minus(ray_orig@),
            triangle.normal@,
            COORD_MAX + REACH,
            SCALE + 2,
        );
    }
    let den: i128 = ray_dir.dot(triangle.normal);
    proof {
        lemma_div_trunc_bounds(den as int, SCALE as int);
    }
    if approx((den / (SCALE as i128)) as i64, 0) {
        return None;
    }
    let num: i128 = triangle.p0.minus(ray_orig).dot(triangle.normal);
    proof {
        assert(abs_int(den as int) >= 100_000_000);
        let a = if den > 0 { num * SCALE } else { -(num * SCALE) };
        let b = abs_int(den as int);
        assert(abs_int(a) <= 13_500_027_000_000_000_000_000);
        assert(abs_int(a) <= 135_000_270_000_000 * b) by (nonlinear_arith)
            requires
                abs_int(a) <= 13_500_027_000_000_000_000_000,
                b >= 100_000_000,
        ;
        lemma_div_trunc_le(a, b, 135_000_270_000_000);
    }
    let k: i128 = if den > 0 {
        (num * (SCALE as i128)) / den
    } else {
        (-(num * (SCALE as i128))) / (-den)
    };
    if k < 0 {
        return None;
    }
    let t: i64 = k as i64;
    proof {
        lemma_product_bound(ray_dir.x as int, t as int, MAX_DIRECTION as int, 135_000_270_000_000);
        lemma_product_bound(ray_dir.y as int, t as int, MAX_DIRECTION as int, 135_000_270_000_000);
        lemma_product_bound(ray_dir.z as int, t as int, MAX_DIRECTION as int, 135_000_270_000_000);
        lemma_div_trunc_bounds(ray_dir.x * t, SCALE as int);
        lemma_div_trunc_bounds(ray_dir.y * t, SCALE as int);
        lemma_div_trunc_bounds(ray_dir.z * t, SCALE as int);
    }
    let step: Vec3 = ray_dir.scaled_over(t, SCALE as i128);
    let h: Vec3 = ray_orig.plus(step);
    if !h.is_within(REACH) {
        return None;
    }
    proof {
        lemma_ray_point_on_plane(ray_orig@, ray_dir@, triangle);
    }
    if is_point_in_triangle(h, triangle) {
        Some(t)
    } else {
        None
    }
}

/// A vector of four fixed-point numbers: a column of a [`Matrix4`].
#[derive(Clone, Copy, Debug, PartialEq, Eq, Structural)]
pub struct Vec4 {
    pub x: i64,
    pub y: i64,
    pub z: i64,
    pub w: i64,
}

/// A matrix of four by four fixed-point numbers, held by columns.
#[derive(Clone, Copy, Debug, PartialEq, Eq, Structural)]
pub struct Matrix4 {
    pub x: Vec4,
    pub y: Vec4,
    pub z: Vec4,
    pub w: Vec4,
}

/// Largest magnitude of an entry of a matrix: a thousand. Up to it the
/// image of a point of the world fits the machine.
pub const MATRIX_MAX: i64 = 1_000_000_000;

impl Vec4 {
    /// Every component is at most `b` in magnitude.
    pub open spec fn within(self, b: int) -> bool {
        abs_int(self.x as int) <= b && abs_int(self.y as int) <= b && abs_int(self.z as int) <= b
            && abs_int(self.w as int) <= b
    }
}

/// One row of the product of a matrix with the point `p`, taken as a
/// column whose fourth entry is one: `a`, `b`, `c` and `d` are the entries
/// of the row.
pub open spec fn row_times(a: int, b: int, c: int, d: int, p: Int3) -> int {
    div_trunc(a * p.x + b * p.y + c * p.z + d * SCALE, SCALE as int)
}

impl Matrix4 {
    /// Every entry is at most [`MATRIX_MAX`] in magnitude.
    pub open spec fn wf(self) -> bool {
        &&& self.x.within(MATRIX_MAX as int)
        &&& self.y.within(MATRIX_MAX as int)
        &&& self.z.within(MATRIX_MAX as int)
        &&& self.w.within(MATRIX_MAX as int)
    }

    /// The first three entries of the product of the matrix with `p`.
    pub open spec fn times(self, p: Int3) -> Int3 {
        Int3 {
            x: row_times(self.x.x as int, self.y.x as int, self.z.x as int, self.w.x as int, p),
            y: row_times(self.x.y as int, self.y.y as int, self.z.y as int, self.w.y as int, p),
            z: row_times(self.x.z as int, self.y.z as int, self.z.z as int, self.w.z as int, p),
        }
    }

    /// The fourth entry of the product of the matrix with `p`: the weight
    /// by which the first three are divided.
    pub open spec fn weight(self, p: Int3) -> int {
        row_times(self.x.w as int, self.y.w as int, self.z.w as int, self.w.w as int, p)
    }

    /// The image of the point `p`: the first three entries of the product
    /// divided by the fourth.
    pub open spec fn image(self, p: Int3) -> Int3 {
        Int3 {
            x: div_trunc_any(self.times(p).x * SCALE, self.weight(p)),
            y: div_trunc_any(self.times(p).y * SCALE, self.weight(p)),
            z: div_trunc_any(self.times(p).z * SCALE, self.weight(p)),
        }
    }

    /// Whether every entry is at most [`MATRIX_MAX`] in magnitude.
    pub fn is_well_formed(&self) -> (b: bool)
        ensures
            b == self.wf(),
    {
        column_is_within(self.x) && column_is_within(self.y) && column_is_within(self.z)
            && column_is_within(self.w)
    }

    /// The matrix that leaves every point where it is.
    pub fn identity() -> (m: Matrix4)
        ensures
            m == Matrix4::translation_by(Int3::zero()),
            m.wf(),
    {
        Matrix4 {
            x: Vec4 { x: SCALE, y: 0, z: 0, w: 0 },
            y: Vec4 { x: 0, y: SCALE, z: 0, w: 0 },
            z: Vec4 { x: 0, y: 0, z: SCALE, w: 0 },
            w: Vec4 { x: 0, y: 0, z: 0, w: SCALE },
        }
    }

    /// The matrix that moves every point by `v`, for a `v` whose
    /// components fit an `i64`.
    pub open spec fn translation_by(v: Int3) -> Matrix4 {
        Matrix4 {
            x: Vec4 { x: SCALE, y: 0, z: 0, w: 0 },
            y: Vec4 { x: 0, y: SCALE, z: 0, w: 0 },
            z: Vec4 { x: 0, y: 0, z: SCALE, w: 0 },
            w: Vec4 { x: v.x as i64, y: v.y as i64, z: v.z as i64, w: SCALE },
        }
    }

    /// The matrix that moves every point by `v`.
    pub fn from_translation(v: Vec3) -> (m: Matrix4)
        ensures
            m == Matrix4::translation_by(v@),
            v@.within(MATRIX_MAX as int) ==> m.wf(),
    {
        Matrix4 {
            x: Vec4 { x: SCALE, y: 0, z: 0, w: 0 },
            y: Vec4 { x: 0, y: SCALE, z: 0, w: 0 },
            z: Vec4 { x: 0, y: 0, z: SCALE, w: 0 },
            w: Vec4 { x: v.x, y: v.y, z: v.z, w: SCALE },
        }
    }

    /// The weight of the image of `point`; the point has an image where
    /// it is not zero.
    pub fn weight_of(&self, point: Vec3) -> (k: i64)
        requires
            self.wf(),
            point@.within(COORD_MAX as int),
        ensures
            k == self.weight(point@),
    {
        row_of(self.x.w, self.y.w, self.z.w, self.w.w, point)
    }

    /// The image of `point`.
    pub fn transform_point(&self, point: Vec3) -> (q: Vec3)
        requires
            self.wf(),
            point@.within(COORD_MAX as int),
            self.weight(point@) != 0,
        ensures
            q@ == self.image(point@),
    {
        let x: i64 = row_of(self.x.x, self.y.x, self.z.x, self.w.x, point);
        let y: i64 = row_of(self.x.y, self.y.y, self.z.y, self.w.y, point);
        let z: i64 = row_of(self.x.z, self.y.z, self.z.z, self.w.z, point);
        let k: i64 = row_of(self.x.w, self.y.w, self.z.w, self.w.w, point);
        Vec3 { x: over_weight(x, k), y: over_weight(y, k), z: over_weight(z, k) }
    }
}

/// Whether every entry of the column is at most [`MATRIX_MAX`] in
/// magnitude.
fn column_is_within(c: Vec4) -> (b: bool)
    ensures
        b == c.within(MATRIX_MAX as int),
{
    -MATRIX_MAX <= c.x && c.x <= MATRIX_MAX && -MATRIX_MAX <= c.y && c.y <= MATRIX_MAX
        && -MATRIX_MAX <= c.z && c.z <= MATRIX_MAX && -MATRIX_MAX <= c.w && c.w <= MATRIX_MAX
}

/// One row of the product of a matrix with `p`.
fn row_of(a: i64, b: i64, c: i64, d: i64, p: Vec3) -> (r: i64)
    requires
        abs_int(a as int) <= MATRIX_MAX,
        abs_int(b as int) <= MATRIX_MAX,
        abs_int(c as int) <= MATRIX_MAX,
        abs_int(d as int) <= MATRIX_MAX,
        p@.within(COORD_MAX as int),
    ensures
        r == row_times(a as int, b as int, c as int, d as int, p@),
        abs_int(r as int) <= 1_501_000_000_000,
{
    proof {
        lemma_product_bound(a as int, p.x as int, MATRIX_MAX as int, COORD_MAX as int);
        lemma_product_bound(b as int, p.y as int, MATRIX_MAX as int, COORD_MAX as int);
        lemma_product_bound(c as int, p.z as int, MATRIX_MAX as int, COORD_MAX as int);
        lemma_product_bound(d as int, SCALE as int, MATRIX_MAX as int, SCALE as int);
        assert(MATRIX_MAX * COORD_MAX == 500_000_000_000_000_000 && MATRIX_MAX * SCALE
            == 1_000_000_000_000_000) by (nonlinear_arith)
            requires
                MATRIX_MAX == 1_000_000_000,
                COORD_MAX == 500_000_000,
                SCALE == 1_000_000,
        ;
        let s = a * p.x + b * p.y + c * p.z + d * SCALE;
        assert(abs_int(s) <= 1_501_000_000_000 * 1_000_000);
        lemma_div_trunc_le(s, SCALE as int, 1_501_000_000_000);
    }
    let s: i128 = mul_wide(a, p.x) + mul_wide(b, p.y) + mul_wide(c, p.z) + mul_wide(d, SCALE);
    (s / (SCALE as i128)) as i64
}

/// An entry of a product divided by the weight of the product.
fn over_weight(e: i64, k: i64) -> (r: i64)
    requires
        abs_int(e as int) <= 1_501_000_000_000,
        k != 0,
    ensures
        r == div_trunc_any(e * SCALE, k as int),
{
    proof {
        lemma_product_bound(e as int, SCALE as int, 1_501_000_000_000, SCALE as int);
        assert(1_501_000_000_000 * SCALE == 1_501_000_000_000_000_000) by (nonlinear_arith)
            requires
                SCALE == 1_000_000,
        ;
        if k > 0 {
            lemma_div_trunc_bounds(e * SCALE, k as int);
        } else {
            lemma_div_trunc_bounds(-(e * SCALE), -k);
        }
    }
    let a: i128 = mul_wide(e, SCALE);
    if k > 0 {
        (a / (k as i128)) as i64
    } else {
        ((-a) / (-(k as i128))) as i64
    }
}

impl Triangle {
    /// Whether the triangle is well formed.
    pub fn is_well_formed(&self) -> (b: bool)
        ensures
            b == self.wf(),
    {
        if !(self.p0.is_within(COORD_MAX) && self.p1.is_within(COORD_MAX) && self.p2.is_within(
            COORD_MAX,
        ) && self.normal.is_within(2 * SCALE)) {
            proof {
                if near_unit(self.normal@) {
                    lemma_near_unit_within(self.normal@);
                }
            }
            return false;
        }
        proof {
            lemma_norm2_bound(self.normal@, 2 * SCALE);
        }
        let nn: i128 = self.normal.norm2();
        let gap: i128 = nn - 1_000_000_000_000;
        proof {
            assert(SCALE * SCALE == 1_000_000_000_000) by (nonlinear_arith)
                requires
                    SCALE == 1_000_000,
            ;
        }
        -(UNIT_SLACK as i128) <= gap && gap <= UNIT_SLACK as i128
    }

    /// The triangle on the images of the three vertices under `m`, with
    /// the normal of the vertices as they were and the area as it was,
    /// where the images fit the machine.
    pub open spec fn transformed(self, m: Matrix4) -> Triangle {
        Triangle {
            p0: vec3_of(m.image(self.p0@)),
            p1: vec3_of(m.image(self.p1@)),
            p2: vec3_of(m.image(self.p2@)),
            normal: vec3_of(self.raw_normal().normalized()),
            area: self.area,
        }
    }

    /// Whether `m` gives each vertex of the triangle an image.
    pub open spec fn has_image(self, m: Matrix4) -> bool {
        &&& self.p0@.within(COORD_MAX as int)
        &&& self.p1@.within(COORD_MAX as int)
        &&& self.p2@.within(COORD_MAX as int)
        &&& m.weight(self.p0@) != 0
        &&& m.weight(self.p1@) != 0
        &&& m.weight(self.p2@) != 0
    }

    /// The triangle on the images of the three vertices under `m`. The
    /// normal is not that of the new vertices: it is taken anew from the
    /// edges of the triangle as it was, and so is right for a matrix that
    /// only moves the triangle and stale for one that turns it. The area
    /// is carried over as it was.
    pub fn transformed_by(&self, m: Matrix4) -> (t: Triangle)
        requires
            m.wf(),
            self.has_image(m),
        ensures
            t == self.transformed(m),
            t.p0@ == m.image(self.p0@),
            t.p1@ == m.image(self.p1@),
            t.p2@ == m.image(self.p2@),
            t.normal@ == self.raw_normal().normalized(),
            t.area == self.area,
    {
        proof {
            lemma_normalized_within(self.raw_normal());
        }
        let p0: Vec3 = m.transform_point(self.p0);
        let p1: Vec3 = m.transform_point(self.p1);
        let p2: Vec3 = m.transform_point(self.p2);
        proof {
            lemma_minus_bound(self.p1@, self.p0@, COORD_MAX as int, COORD_MAX as int);
            lemma_minus_bound(self.p2@, self.p0@, COORD_MAX as int, COORD_MAX as int);
            lemma_cross_bound(
                self.p1@.minus(self.p0@),
                self.p2@.minus(self.p0@),
                2 * COORD_MAX,
                2 * COORD_MAX,
            );
            lemma_norm2_bound(self.raw_normal(), 2 * ((2 * COORD_MAX) * (2 * COORD_MAX)));
        }
        let c: Vec3 = self.p1.minus(self.p0).cross(self.p2.minus(self.p0));
        Triangle { p0, p1, p2, normal: c.normalized(), area: self.area }
    }
}

/// A matrix that only moves points moves each point by its last column.
pub proof fn lemma_translation_image(v: Int3, p: Int3)
    requires
        v.fits(),
    ensures
        Matrix4::translation_by(v).weight(p) == SCALE,
        Matrix4::translation_by(v).image(p) == p.plus(v),
{
    let m = Matrix4::translation_by(v);
    lemma_row_of_translation(p.x, p.y, p.z, v.x);
    lemma_row_of_translation(p.y, p.z, p.x, v.y);
    lemma_row_of_translation(p.z, p.x, p.y, v.z);
    assert(0 * p.x + 0 * p.y + 0 * p.z + SCALE * SCALE == 1_000_000_000_000) by (nonlinear_arith)
        requires
            SCALE == 1_000_000,
    ;
    assert(m.weight(p) == 1_000_000);
    assert(m.times(p).x == p.x + v.x);
    assert(m.times(p).y == p.y + v.y);
    assert(m.times(p).z == p.z + v.z);
    assert(m.times(p) == p.plus(v));
    let q = p.plus(v);
    assert(q.x * SCALE == 1_000_000 * q.x && q.y * SCALE == 1_000_000 * q.y && q.z * SCALE
        == 1_000_000 * q.z) by (nonlinear_arith)
        requires
            SCALE == 1_000_000,
    ;
}

/// The row of a matrix that only moves points: one coordinate plus one
/// entry of the last column.
proof fn lemma_row_of_translation(a: int, b: int, c: int, d: int)
    ensures
        row_times(SCALE as int, 0, 0, d, Int3 { x: a, y: b, z: c }) == a + d,
        row_times(0, SCALE as int, 0, d, Int3 { x: c, y: a, z: b }) == a + d,
        row_times(0, 0, SCALE as int, d, Int3 { x: b, y: c, z: a }) == a + d,
{
    assert(SCALE * a + 0 * b + 0 * c + d * SCALE == 1_000_000 * (a + d)) by (nonlinear_arith)
        requires
            SCALE == 1_000_000,
    ;
    assert(0 * c + SCALE * a + 0 * b + d * SCALE == 1_000_000 * (a + d)) by (nonlinear_arith)
        requires
            SCALE == 1_000_000,
    ;
    assert(0 * b + 0 * c + SCALE * a + d * SCALE == 1_000_000 * (a + d)) by (nonlinear_arith)
        requires
            SCALE == 1_000_000,
    ;
}

} // verus!

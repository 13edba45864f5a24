//! What holds for all inputs: theorems on the mathematical functions with
//! which the contracts of the crate are stated.
//!
//! - A triangle holds its vertices and its centroid, and moving or
//!   turning a triangle together with a point does not change whether it
//!   holds the point.
//! - The nearest point of a segment, projected again, stays where it is
//!   up to rounding.
//! - A floor pushes a capsule straight up to one radius above it; a
//!   triangle out of reach of a capsule does not push it.
//! - A capsule close above a floor stands on it, a capsule lifted beyond
//!   the threshold does not.
//! - A player at rest on a floor stays at rest.
use vstd::prelude::*;
use crate::fixed::{
    abs_int, div_trunc, lemma_div_trunc_bounds, lemma_div_trunc_remainder, lemma_isqrt_square,
    COORD_MAX, REACH, SCALE,
};
use crate::geom::{
    closest_on_segment, distance, edge_normal, edge_side, horizontal_direction, horizontal_part,
    in_triangle, inside_triangle, plane_distance, plane_offset, plane_projection,
    projects_inside_segment, ray_denominator, ray_hit, ray_numerator, ray_parameter, ray_point,
    segment_parameter, vector_on_plane, Triangle,
};
use crate::physics::{
    behind, boundary_distance, boundary_point, closer_distance, closer_point, closer_tip,
    correction, displacement_after, down, ground_contact, ground_from, lemma_displaced_twice,
    nudged, penetration, planar_push, player_capsule, probe_directions, probe_offset,
    projection_inside, resolved_displacement, stands_on, up, Capsule, GHOST_RAY_OFFSET,
    GROUNDED_HEIGHT, PLAYER_CAPSULE_RADIUS, PUSH_EPSILON,
};
use crate::player::{
    accelerated, friction_applied, ground_velocity, horizontal_or_zero, wish_direction, MoveInput,
    PlayerState, GROUND_ACCELERATION, MAX_SPEED_ON_ONE_DIMENSION, WORLD_FLOOR,
};
use crate::vector::{lemma_norm2_nonnegative, Int3};

verus! {

/// `v` turned by a quarter turn about the `x` axis.
pub open spec fn turn_x(v: Int3) -> Int3 {
    Int3 { x: v.x, y: -v.z, z: v.y }
}

/// `v` turned by a quarter turn about the `y` axis.
pub open spec fn turn_y(v: Int3) -> Int3 {
    Int3 { x: v.z, y: v.y, z: -v.x }
}

/// `v` turned by a quarter turn about the `z` axis.
pub open spec fn turn_z(v: Int3) -> Int3 {
    Int3 { x: -v.y, y: v.x, z: v.z }
}

/// The vector product of a vector with itself, and with the zero vector,
/// is zero.
pub proof fn lemma_cross_degenerate(a: Int3)
    ensures
        a.cross(a) == Int3::zero(),
        a.cross(Int3::zero()) == Int3::zero(),
{
    let (x, y, z) = (a.x, a.y, a.z);
    assert(y * z - z * y == 0) by (nonlinear_arith);
    assert(z * x - x * z == 0) by (nonlinear_arith);
    assert(x * y - y * x == 0) by (nonlinear_arith);
    assert(y * 0 - z * 0 == 0 && z * 0 - x * 0 == 0 && x * 0 - y * 0 == 0);
}

/// The scalar product of the zero vector with any vector is zero.
pub proof fn lemma_dot_zero(n: Int3)
    ensures
        Int3::zero().dot(n) == 0,
{
}

/// One component of the vector product of two edges of a triangle does
/// not depend on the vertex the edges start from.
proof fn lemma_cyclic_component(
    ay: int,
    az: int,
    by: int,
    bz: int,
    cy: int,
    cz: int,
)
    ensures
        (cy - by) * (az - bz) - (cz - bz) * (ay - by) == (by - ay) * (cz - az) - (bz - az) * (cy
            - ay),
{
    assert((cy - by) * (az - bz) - (cz - bz) * (ay - by) == (by - ay) * (cz - az) - (bz - az) * (cy
        - ay)) by (nonlinear_arith);
}

/// The exact normal of a triangle does not depend on the vertex it is
/// taken from: it is the same for `p0 p1 p2`, `p1 p2 p0` and `p2 p0 p1`.
pub proof fn lemma_edge_normal_cyclic(p0: Int3, p1: Int3, p2: Int3)
    ensures
        edge_normal(p1, p2, p0) == edge_normal(p0, p1, p2),
        edge_normal(p2, p0, p1) == edge_normal(p0, p1, p2),
{
    lemma_cyclic_component(p0.y, p0.z, p1.y, p1.z, p2.y, p2.z);
    lemma_cyclic_component(p0.z, p0.x, p1.z, p1.x, p2.z, p2.x);
    lemma_cyclic_component(p0.x, p0.y, p1.x, p1.y, p2.x, p2.y);
    lemma_cyclic_component(p1.y, p1.z, p2.y, p2.z, p0.y, p0.z);
    lemma_cyclic_component(p1.z, p1.x, p2.z, p2.x, p0.z, p0.x);
    lemma_cyclic_component(p1.x, p1.y, p2.x, p2.y, p0.x, p0.y);
}

/// Where a vertex of a triangle stands against an edge: on the edge that
/// starts or ends at it the triple product is zero, and against the edge
/// opposite to it it is the squared length of the exact normal.
pub proof fn lemma_edge_side_of_vertex(a: Int3, b: Int3, c: Int3, n: Int3)
    ensures
        edge_side(a, b, a, n) == 0,
        edge_side(a, b, b, n) == 0,
        edge_side(a, b, c, edge_normal(a, b, c)) == edge_normal(a, b, c).norm2(),
{
    lemma_cross_degenerate(b.minus(a));
    assert(a.minus(a) == Int3::zero());
    lemma_dot_zero(n);
}

/// A triangle that is not degenerate holds its own three vertices.
pub proof fn lemma_vertices_in_triangle(p0: Int3, p1: Int3, p2: Int3)
    requires
        edge_normal(p0, p1, p2) != Int3::zero(),
    ensures
        in_triangle(p0, p0, p1, p2),
        in_triangle(p1, p0, p1, p2),
        in_triangle(p2, p0, p1, p2),
{
    let n = edge_normal(p0, p1, p2);
    lemma_edge_normal_cyclic(p0, p1, p2);
    lemma_norm2_nonnegative(n);
    lemma_edge_side_of_vertex(p0, p1, p2, n);
    lemma_edge_side_of_vertex(p1, p2, p0, n);
    lemma_edge_side_of_vertex(p2, p0, p1, n);
}

/// One component of the vector product of an edge with three times the
/// vector to the centroid.
proof fn lemma_third_component(ey: int, ez: int, fy: int, fz: int, wy: int, wz: int)
    requires
        3 * wy == ey + fy,
        3 * wz == ez + fz,
    ensures
        3 * (ey * wz - ez * wy) == ey * fz - ez * fy,
{
    assert(3 * (ey * wz - ez * wy) == ey * (3 * wz) - ez * (3 * wy)) by (nonlinear_arith);
    assert(ey * (ez + fz) - ez * (ey + fy) == ey * fz - ez * fy) by (nonlinear_arith);
}

/// Against the first edge of a triangle the centroid stands at a third
/// of the squared length of the exact normal.
proof fn lemma_edge_side_of_centroid(c: Int3, p0: Int3, p1: Int3, p2: Int3)
    requires
        c.scaled(3) == p0.plus(p1).plus(p2),
    ensures
        3 * edge_side(p0, p1, c, edge_normal(p0, p1, p2)) == edge_normal(p0, p1, p2).norm2(),
{
    let e = p1.minus(p0);
    let f = p2.minus(p0);
    let w = c.minus(p0);
    let n = edge_normal(p0, p1, p2);
    let k = e.cross(w);
    assert(c.scaled(3).x == p0.plus(p1).plus(p2).x);
    assert(c.scaled(3).y == p0.plus(p1).plus(p2).y);
    assert(c.scaled(3).z == p0.plus(p1).plus(p2).z);
    lemma_third_component(e.y, e.z, f.y, f.z, w.y, w.z);
    lemma_third_component(e.z, e.x, f.z, f.x, w.z, w.x);
    lemma_third_component(e.x, e.y, f.x, f.y, w.x, w.y);
    assert(3 * k.x == n.x && 3 * k.y == n.y && 3 * k.z == n.z);
    let (kx, ky, kz) = (k.x, k.y, k.z);
    let (nx, ny, nz) = (n.x, n.y, n.z);
    assert(3 * (kx * nx) == nx * nx) by (nonlinear_arith)
        requires
            3 * kx == nx,
    ;
    assert(3 * (ky * ny) == ny * ny) by (nonlinear_arith)
        requires
            3 * ky == ny,
    ;
    assert(3 * (kz * nz) == nz * nz) by (nonlinear_arith)
        requires
            3 * kz == nz,
    ;
}

/// A triangle that is not degenerate holds its centroid, where the
/// centroid has integer coordinates.
pub proof fn lemma_centroid_in_triangle(c: Int3, p0: Int3, p1: Int3, p2: Int3)
    requires
        edge_normal(p0, p1, p2) != Int3::zero(),
        c.scaled(3) == p0.plus(p1).plus(p2),
    ensures
        in_triangle(c, p0, p1, p2),
{
    let n = edge_normal(p0, p1, p2);
    lemma_edge_normal_cyclic(p0, p1, p2);
    lemma_norm2_nonnegative(n);
    assert(p1.plus(p2).plus(p0) == p0.plus(p1).plus(p2));
    assert(p2.plus(p0).plus(p1) == p0.plus(p1).plus(p2));
    lemma_edge_side_of_centroid(c, p0, p1, p2);
    lemma_edge_side_of_centroid(c, p1, p2, p0);
    lemma_edge_side_of_centroid(c, p2, p0, p1);
}

/// Moving a point and a triangle by the same vector does not change
/// whether the triangle holds the point.
pub proof fn lemma_in_triangle_translated(p: Int3, p0: Int3, p1: Int3, p2: Int3, d: Int3)
    ensures
        in_triangle(p.plus(d), p0.plus(d), p1.plus(d), p2.plus(d)) == in_triangle(p, p0, p1, p2),
{
    assert(p1.plus(d).minus(p0.plus(d)) == p1.minus(p0));
    assert(p2.plus(d).minus(p0.plus(d)) == p2.minus(p0));
    assert(p2.plus(d).minus(p1.plus(d)) == p2.minus(p1));
    assert(p0.plus(d).minus(p2.plus(d)) == p0.minus(p2));
    assert(p.plus(d).minus(p0.plus(d)) == p.minus(p0));
    assert(p.plus(d).minus(p1.plus(d)) == p.minus(p1));
    assert(p.plus(d).minus(p2.plus(d)) == p.minus(p2));
}

/// A quarter turn about the `y` axis turns a vector product with its
/// factors and leaves a scalar product as it is.
pub proof fn lemma_turn_y_products(a: Int3, b: Int3)
    ensures
        turn_y(a).cross(turn_y(b)) == turn_y(a.cross(b)),
        turn_y(a).dot(turn_y(b)) == a.dot(b),
        turn_y(a.minus(b)) == turn_y(a).minus(turn_y(b)),
{
    let (ax, ay, az) = (a.x, a.y, a.z);
    let (bx, by, bz) = (b.x, b.y, b.z);
    assert(ay * (-bx) - (-ax) * by == ax * by - ay * bx) by (nonlinear_arith);
    assert((-ax) * bz - az * (-bx) == az * bx - ax * bz) by (nonlinear_arith);
    assert(az * by - ay * bz == -(ay * bz - az * by)) by (nonlinear_arith);
    assert((-ax) * (-bx) == ax * bx) by (nonlinear_arith);
}

/// A quarter turn about the `x` axis turns a vector product with its
/// factors and leaves a scalar product as it is.
pub proof fn lemma_turn_x_products(a: Int3, b: Int3)
    ensures
        turn_x(a).cross(turn_x(b)) == turn_x(a.cross(b)),
        turn_x(a).dot(turn_x(b)) == a.dot(b),
        turn_x(a.minus(b)) == turn_x(a).minus(turn_x(b)),
{
    let (ax, ay, az) = (a.x, a.y, a.z);
    let (bx, by, bz) = (b.x, b.y, b.z);
    assert((-az) * by - ay * (-bz) == ay * bz - az * by) by (nonlinear_arith);
    assert(ay * bx - ax * by == -(ax * by - ay * bx)) by (nonlinear_arith);
    assert(ax * (-bz) - (-az) * bx == az * bx - ax * bz) by (nonlinear_arith);
    assert((-az) * (-bz) == az * bz) by (nonlinear_arith);
}

/// A quarter turn about the `z` axis turns a vector product with its
/// factors and leaves a scalar product as it is.
pub proof fn lemma_turn_z_products(a: Int3, b: Int3)
    ensures
        turn_z(a).cross(turn_z(b)) == turn_z(a.cross(b)),
        turn_z(a).dot(turn_z(b)) == a.dot(b),
        turn_z(a.minus(b)) == turn_z(a).minus(turn_z(b)),
{
    let (ax, ay, az) = (a.x, a.y, a.z);
    let (bx, by, bz) = (b.x, b.y, b.z);
    assert(ax * bz - az * bx == -(az * bx - ax * bz)) by (nonlinear_arith);
    assert(az * (-by) - (-ay) * bz == ay * bz - az * by) by (nonlinear_arith);
    assert((-ay) * bx - ax * (-by) == ax * by - ay * bx) by (nonlinear_arith);
    assert((-ay) * (-by) == ay * by) by (nonlinear_arith);
}

/// Turning a point and a triangle together by a quarter turn about the
/// `y` axis does not change whether the triangle holds the point.
pub proof fn lemma_in_triangle_turned_y(p: Int3, p0: Int3, p1: Int3, p2: Int3)
    ensures
        in_triangle(turn_y(p), turn_y(p0), turn_y(p1), turn_y(p2)) == in_triangle(p, p0, p1, p2),
{
    let n = edge_normal(p0, p1, p2);
    lemma_turn_y_products(p1, p0);
    lemma_turn_y_products(p2, p0);
    lemma_turn_y_products(p2, p1);
    lemma_turn_y_products(p0, p2);
    lemma_turn_y_products(p, p0);
    lemma_turn_y_products(p, p1);
    lemma_turn_y_products(p, p2);
    lemma_turn_y_products(p1.minus(p0), p2.minus(p0));
    assert(edge_normal(turn_y(p0), turn_y(p1), turn_y(p2)) == turn_y(n));
    lemma_turn_y_products(p1.minus(p0), p.minus(p0));
    lemma_turn_y_products(p2.minus(p1), p.minus(p1));
    lemma_turn_y_products(p0.minus(p2), p.minus(p2));
    lemma_turn_y_products(p1.minus(p0).cross(p.minus(p0)), n);
    lemma_turn_y_products(p2.minus(p1).cross(p.minus(p1)), n);
    lemma_turn_y_products(p0.minus(p2).cross(p.minus(p2)), n);
}

/// Turning a point and a triangle together by a quarter turn about the
/// `x` axis does not change whether the triangle holds the point.
pub proof fn lemma_in_triangle_turned_x(p: Int3, p0: Int3, p1: Int3, p2: Int3)
    ensures
        in_triangle(turn_x(p), turn_x(p0), turn_x(p1), turn_x(p2)) == in_triangle(p, p0, p1, p2),
{
    let n = edge_normal(p0, p1, p2);
    lemma_turn_x_products(p1, p0);
    lemma_turn_x_products(p2, p0);
    lemma_turn_x_products(p2, p1);
    lemma_turn_x_products(p0, p2);
    lemma_turn_x_products(p, p0);
    lemma_turn_x_products(p, p1);
    lemma_turn_x_products(p, p2);
    lemma_turn_x_products(p1.minus(p0), p2.minus(p0));
    assert(edge_normal(turn_x(p0), turn_x(p1), turn_x(p2)) == turn_x(n));
    lemma_turn_x_products(p1.minus(p0), p.minus(p0));
    lemma_turn_x_products(p2.minus(p1), p.minus(p1));
    lemma_turn_x_products(p0.minus(p2), p.minus(p2));
    lemma_turn_x_products(p1.minus(p0).cross(p.minus(p0)), n);
    lemma_turn_x_products(p2.minus(p1).cross(p.minus(p1)), n);
    lemma_turn_x_products(p0.minus(p2).cross(p.minus(p2)), n);
}

/// Turning a point and a triangle together by a quarter turn about the
/// `z` axis does not change whether the triangle holds the point.
pub proof fn lemma_in_triangle_turned_z(p: Int3, p0: Int3, p1: Int3, p2: Int3)
    ensures
        in_triangle(turn_z(p), turn_z(p0), turn_z(p1), turn_z(p2)) == in_triangle(p, p0, p1, p2),
{
    let n = edge_normal(p0, p1, p2);
    lemma_turn_z_products(p1, p0);
    lemma_turn_z_products(p2, p0);
    lemma_turn_z_products(p2, p1);
    lemma_turn_z_products(p0, p2);
    lemma_turn_z_products(p, p0);
    lemma_turn_z_products(p, p1);
    lemma_turn_z_products(p, p2);
    lemma_turn_z_products(p1.minus(p0), p2.minus(p0));
    assert(edge_normal(turn_z(p0), turn_z(p1), turn_z(p2)) == turn_z(n));
    lemma_turn_z_products(p1.minus(p0), p.minus(p0));
    lemma_turn_z_products(p2.minus(p1), p.minus(p1));
    lemma_turn_z_products(p0.minus(p2), p.minus(p2));
    lemma_turn_z_products(p1.minus(p0).cross(p.minus(p0)), n);
    lemma_turn_z_products(p2.minus(p1).cross(p.minus(p1)), n);
    lemma_turn_z_products(p0.minus(p2).cross(p.minus(p2)), n);
}

/// The point of the plane of `t` straight above or below `x`, for a
/// horizontal `t`.
pub open spec fn dropped_onto(x: Int3, t: Triangle) -> Int3 {
    Int3 { x: x.x, y: t.p0@.y, z: x.z }
}

/// A quotient of a multiple of [`SCALE`] by [`SCALE`] is exact.
proof fn lemma_div_scale_exact(d: int)
    ensures
        div_trunc(SCALE * d, SCALE as int) == d,
        div_trunc(d * SCALE, SCALE as int) == d,
        div_trunc(0 * d, SCALE as int) == 0,
        div_trunc(d * 0, SCALE as int) == 0,
{
    assert(SCALE * d == 1_000_000 * d && d * SCALE == 1_000_000 * d) by (nonlinear_arith)
        requires
            SCALE == 1_000_000,
    ;
    assert(0 * d == 0 && d * 0 == 0) by (nonlinear_arith);
}

/// Against a horizontal triangle whose normal points up, the plane
/// offset of a point is its height above the triangle, the plane distance
/// the magnitude of that height, and the projection the point of the
/// plane straight above or below.
pub proof fn lemma_horizontal_plane(x: Int3, t: Triangle)
    requires
        t.normal@ == up(SCALE as int),
    ensures
        plane_offset(x, t) == SCALE * (x.y - t.p0@.y),
        plane_distance(x, t) == abs_int(x.y - t.p0@.y),
        plane_projection(x, t) == dropped_onto(x, t),
{
    let h = t.p0@.y;
    let n = t.normal@;
    let dx = x.x - t.p0@.x;
    let dy = x.y - h;
    let dz = x.z - t.p0@.z;
    assert(dx * 0 == 0 && dz * 0 == 0) by (nonlinear_arith);
    assert(dy * SCALE == 1_000_000 * dy) by (nonlinear_arith)
        requires
            SCALE == 1_000_000,
    ;
    assert(plane_offset(x, t) == 1_000_000 * dy);
    let d = plane_distance(x, t);
    assert(d == abs_int(dy));
    lemma_div_scale_exact(d);
}

/// The length of a vertical vector is the magnitude of its height.
pub proof fn lemma_vertical_length(y: int)
    ensures
        up(y).length() == abs_int(y),
{
    let a = abs_int(y);
    assert(y * y == a * a) by (nonlinear_arith)
        requires
            a == abs_int(y),
    ;
    assert(up(y).norm2() == y * y) by (nonlinear_arith)
        requires
            up(y).norm2() == 0 * 0 + y * y + 0 * 0,
    ;
    lemma_isqrt_square(a);
}

/// A horizontal triangle right under a capsule that dips into its plane
/// pushes the capsule straight up, by as much as brings the lower end of
/// the segment one radius above the plane. It holds where the normal
/// points up, the upper end of the segment is not below the plane, the
/// lower end is nearer to the plane than the upper one and not farther
/// from it than one radius, and the point of the plane straight above or
/// below the lower end lies in the triangle.
pub proof fn lemma_floor_pushes_up(c: Capsule, t: Triangle)
    requires
        c.wf(),
        t.normal@ == up(SCALE as int),
        c.c0.y >= t.p0@.y,
        abs_int(c.c1.y - t.p0@.y) < abs_int(c.c0.y - t.p0@.y),
        abs_int(c.c1.y - t.p0@.y) <= c.radius,
        inside_triangle(dropped_onto(c.c1, t), t),
    ensures
        penetration(c, t) == Some(up(t.p0@.y + c.radius - c.c1.y)),
        c.displaced(up(t.p0@.y + c.radius - c.c1.y)).c1.y == t.p0@.y + c.radius,
{
    let h = t.p0@.y;
    lemma_horizontal_plane(c.c0, t);
    lemma_horizontal_plane(c.c1, t);
    assert(plane_offset(c.c0, t) >= 0) by (nonlinear_arith)
        requires
            plane_offset(c.c0, t) == SCALE * (c.c0.y - h),
            c.c0.y >= h,
            SCALE == 1_000_000,
    ;
    assert(!behind(c, t));
    assert(closer_point(c, t) == c.c1);
    let tip = closer_tip(c, t);
    let pp = plane_projection(c.c1, t);
    assert(tip.minus(pp) == up(c.c1.y - c.radius - h));
    lemma_vertical_length(c.c1.y - c.radius - h);
    let depth = distance(tip, pp);
    assert(depth == h + c.radius - c.c1.y);
    lemma_div_scale_exact(depth);
    assert(planar_push(c, t) == up(depth));
}

/// A triangle whose plane is farther from both ends of the segment than
/// the radius does not push the capsule.
pub proof fn lemma_far_plane_no_push(c: Capsule, t: Triangle)
    requires
        closer_distance(c, t) > c.radius,
    ensures
        penetration(c, t).is_none(),
{
}

/// A triangle does not push a capsule that projects outside it and keeps
/// at least its radius from its boundary: where the boundary point faces
/// the inside of the segment, the distance between the two is meant, and
/// where it faces an end, the distance within the plane.
pub proof fn lemma_far_boundary_no_push(c: Capsule, t: Triangle)
    requires
        c.radius >= 0,
        !projection_inside(c, t),
        if projects_inside_segment(boundary_point(c, t), c.c0, c.c1) {
            distance(
                boundary_point(c, t),
                closest_on_segment(boundary_point(c, t), c.c0, c.c1),
            ) >= c.radius
        } else {
            boundary_distance(c, t) >= c.radius
        },
    ensures
        penetration(c, t).is_none(),
{
    let r = c.radius;
    let q = boundary_point(c, t);
    if projects_inside_segment(q, c.c0, c.c1) {
        let d = distance(q, closest_on_segment(q, c.c0, c.c1));
        assert(d * d >= r * r) by (nonlinear_arith)
            requires
                d >= r,
                r >= 0,
        ;
    } else {
        let a = closer_distance(c, t);
        let b = boundary_distance(c, t);
        assert(a * a + b * b >= r * r) by (nonlinear_arith)
            requires
                b >= r,
                r >= 0,
        ;
    }
}

/// Triangles none of which pushes the capsule of a player leave the
/// player where it is.
pub proof fn lemma_untouched_stays(tris: Seq<Triangle>, pos: Int3, k: nat)
    requires
        k <= tris.len(),
        forall|i: int| 0 <= i < k ==> penetration(player_capsule(pos), #[trigger] tris[i]).is_none(),
    ensures
        displacement_after(player_capsule(pos), tris, k) == Int3::zero(),
        k == tris.len() ==> resolved_displacement(tris, pos) == Int3::zero(),
    decreases k,
{
    if k > 0 {
        lemma_untouched_stays(tris, pos, (k - 1) as nat);
        lemma_displaced_twice(player_capsule(pos), Int3::zero(), Int3::zero());
        assert(penetration(player_capsule(pos), tris[k - 1]).is_none());
    }
}

/// Where a ray cast straight down hits a horizontal triangle whose normal
/// points up: at the point of the plane right below its origin, at a
/// parameter that is the height of the origin above the plane, if the
/// origin is not below the plane and that point lies in the triangle.
pub proof fn lemma_ray_down_on_floor(o: Int3, t: Triangle)
    requires
        t.normal@ == up(SCALE as int),
    ensures
        ray_hit(o, down(), t) == if o.y >= t.p0@.y && dropped_onto(o, t).within(REACH as int)
            && inside_triangle(dropped_onto(o, t), t) {
            Some(o.y - t.p0@.y)
        } else {
            None
        },
{
    let h = t.p0@.y;
    let n = t.normal@;
    let den = ray_denominator(down(), t);
    let num = ray_numerator(o, t);
    assert(0 * 0 == 0 && (-(SCALE as int)) * SCALE == -1_000_000_000_000) by (nonlinear_arith)
        requires
            SCALE == 1_000_000,
    ;
    assert(den == -1_000_000_000_000);
    let dx = t.p0@.x - o.x;
    let dz = t.p0@.z - o.z;
    let dy = h - o.y;
    assert(dx * 0 == 0 && dz * 0 == 0 && dy * SCALE == 1_000_000 * dy) by (nonlinear_arith)
        requires
            SCALE == 1_000_000,
    ;
    assert(num == 1_000_000 * dy);
    assert(num * SCALE == 1_000_000_000_000 * dy) by (nonlinear_arith)
        requires
            num == 1_000_000 * dy,
            SCALE == 1_000_000,
    ;
    let k = ray_parameter(o, down(), t);
    assert(k == o.y - h);
    assert(0 * k == 0 && (-(SCALE as int)) * k == 1_000_000 * (-k)) by (nonlinear_arith)
        requires
            SCALE == 1_000_000,
    ;
    lemma_div_scale_exact(-k);
    assert(SCALE * (-k) == 1_000_000 * (-k)) by (nonlinear_arith)
        requires
            SCALE == 1_000_000,
    ;
    assert(ray_point(o, down(), k) == dropped_onto(o, t));
}

/// The offset of a probe along a horizontal direction is horizontal.
proof fn lemma_probe_offset_horizontal(dir: Int3)
    requires
        dir.y == 0,
    ensures
        probe_offset(dir).y == 0,
{
    assert(0 * (GHOST_RAY_OFFSET as int) == 0);
}

/// The two directions of the probes are horizontal where the direction
/// of movement is.
pub open spec fn horizontal_or_none(move_dir: Option<Int3>) -> bool {
    match move_dir {
        Some(d) => d.y == 0,
        None => true,
    }
}

/// One of the four probes around `center` starts over the horizontal
/// triangle `t`, within [`REACH`].
pub open spec fn probe_over(center: Int3, forward: Int3, side: Int3, t: Triangle) -> bool {
    ||| over_floor(center.plus(probe_offset(forward)), t)
    ||| over_floor(center.minus(probe_offset(forward)), t)
    ||| over_floor(center.plus(probe_offset(side)), t)
    ||| over_floor(center.minus(probe_offset(side)), t)
}

/// The point of the plane of `t` straight above or below `o` lies in `t`,
/// within [`REACH`].
pub open spec fn over_floor(o: Int3, t: Triangle) -> bool {
    dropped_onto(o, t).within(REACH as int) && inside_triangle(dropped_onto(o, t), t)
}

/// A player whose capsule rests with its lower end less than
/// [`GROUNDED_HEIGHT`] above a horizontal triangle, with a probe over the
/// triangle, stands on ground with the normal of that triangle, where the
/// triangle is the first of the list.
pub proof fn lemma_resting_is_grounded(tris: Seq<Triangle>, pos: Int3, move_dir: Option<Int3>)
    requires
        tris.len() > 0,
        tris[0].normal@ == up(SCALE as int),
        horizontal_or_none(move_dir),
        0 <= player_capsule(pos).c1.y - tris[0].p0@.y < GROUNDED_HEIGHT,
        probe_over(
            player_capsule(pos).c1,
            probe_directions(move_dir).0,
            probe_directions(move_dir).1,
            tris[0],
        ),
    ensures
        ground_contact(tris, pos, move_dir) == (true, tris[0].normal@),
{
    let t = tris[0];
    let center = player_capsule(pos).c1;
    let dirs = probe_directions(move_dir);
    lemma_probe_offset_horizontal(dirs.0);
    lemma_probe_offset_horizontal(dirs.1);
    lemma_ray_down_on_floor(center.plus(probe_offset(dirs.0)), t);
    lemma_ray_down_on_floor(center.minus(probe_offset(dirs.0)), t);
    lemma_ray_down_on_floor(center.plus(probe_offset(dirs.1)), t);
    lemma_ray_down_on_floor(center.minus(probe_offset(dirs.1)), t);
    assert(stands_on(center, dirs.0, dirs.1, t));
}

/// Horizontal triangles do not carry a capsule whose lower end is
/// [`GROUNDED_HEIGHT`] or more above each of them, from the `i`-th
/// triangle on.
proof fn lemma_lifted_from(tris: Seq<Triangle>, center: Int3, forward: Int3, side: Int3, i: nat)
    requires
        forward.y == 0,
        side.y == 0,
        forall|j: int|
            0 <= j < tris.len() ==> (#[trigger] tris[j]).normal@ == up(SCALE as int) && center.y
                - tris[j].p0@.y >= GROUNDED_HEIGHT,
    ensures
        ground_from(tris, center, forward, side, i) == (false, Int3::zero()),
    decreases tris.len() - i,
{
    if i < tris.len() {
        let t = tris[i as int];
        lemma_probe_offset_horizontal(forward);
        lemma_probe_offset_horizontal(side);
        lemma_ray_down_on_floor(center.plus(probe_offset(forward)), t);
        lemma_ray_down_on_floor(center.minus(probe_offset(forward)), t);
        lemma_ray_down_on_floor(center.plus(probe_offset(side)), t);
        lemma_ray_down_on_floor(center.minus(probe_offset(side)), t);
        assert(!stands_on(center, forward, side, t));
        lemma_lifted_from(tris, center, forward, side, i + 1);
    }
}

/// A player whose capsule has its lower end [`GROUNDED_HEIGHT`] or more
/// above every triangle of a list of horizontal triangles does not stand
/// on ground, and is given the zero vector for a normal.
pub proof fn lemma_lifted_is_not_grounded(tris: Seq<Triangle>, pos: Int3, move_dir: Option<Int3>)
    requires
        horizontal_or_none(move_dir),
        forall|j: int|
            0 <= j < tris.len() ==> (#[trigger] tris[j]).normal@ == up(SCALE as int)
                && player_capsule(pos).c1.y - tris[j].p0@.y >= GROUNDED_HEIGHT,
    ensures
        ground_contact(tris, pos, move_dir) == (false, Int3::zero()),
{
    let dirs = probe_directions(move_dir);
    lemma_lifted_from(tris, player_capsule(pos).c1, dirs.0, dirs.1, 0);
}

/// The nearest point of a segment to one of its own ends is that end.
pub proof fn lemma_closest_to_end(a: Int3, b: Int3)
    ensures
        closest_on_segment(a, a, b) == a,
        closest_on_segment(b, a, b) == b,
{
    let e = b.minus(a);
    lemma_norm2_nonnegative(e);
    assert(a.minus(a) == Int3::zero());
    assert(b.minus(b) == Int3::zero());
    lemma_dot_zero(e);
    lemma_norm2_nonnegative(Int3::zero());
    assert(segment_parameter(a, a, b) == 0);
    assert(segment_parameter(b, a, b) == e.norm2());
    lemma_norm2_nonnegative(a.minus(b));
    if a.minus(b).norm2() == 0 {
        assert(a.minus(b) == Int3::zero());
        assert(a == b);
    }
}

/// One component of the foot of a perpendicular: with `u` the share
/// `t / ee` of the component `c` of the segment, rounded towards zero,
/// and `r` what the rounding leaves over, `u` and `r` have the sign of
/// `c`, `r` is smaller than `ee`, and `ee u c` is `c c t - r c`.
proof fn lemma_foot_component(c: int, t: int, ee: int)
    requires
        0 < t < ee,
    ensures
        ({
            let u = div_trunc(c * t, ee);
            let r = c * t - ee * u;
            &&& u * c >= 0
            &&& 0 <= r * c <= ee * abs_int(c)
            &&& ee * (u * c) == (c * c) * t - r * c
            &&& (u * c == 0 ==> u == 0)
            &&& (c >= 0 ==> u >= 0)
            &&& (c <= 0 ==> u <= 0)
        }),
{
    let u = div_trunc(c * t, ee);
    let r = c * t - ee * u;
    lemma_div_trunc_remainder(c * t, ee);
    lemma_div_trunc_bounds(c * t, ee);
    assert((c >= 0 ==> c * t >= 0) && (c <= 0 ==> c * t <= 0)) by (nonlinear_arith)
        requires
            t > 0,
    ;
    assert(u * c >= 0 && (u * c == 0 ==> u == 0)) by (nonlinear_arith)
        requires
            (c >= 0 && u >= 0) || (c <= 0 && u <= 0),
            c == 0 ==> u == 0,
    ;
    assert(0 <= r * c <= ee * abs_int(c)) by (nonlinear_arith)
        requires
            (c >= 0 && 0 <= r < ee) || (c <= 0 && -ee < r <= 0),
    ;
    assert(ee * (u * c) == (c * c) * t - r * c) by (nonlinear_arith)
        requires
            r == c * t - ee * u,
    ;
}

/// Twice the product of the magnitudes of two numbers is at most the sum
/// of their squares.
proof fn lemma_twice_product(a: int, b: int)
    ensures
        2 * (abs_int(a) * abs_int(b)) <= a * a + b * b,
{
    let (x, y) = (abs_int(a), abs_int(b));
    assert(2 * (x * y) <= x * x + y * y) by (nonlinear_arith);
    assert(x * x == a * a && y * y == b * b) by (nonlinear_arith)
        requires
            x == abs_int(a),
            y == abs_int(b),
    ;
}

/// Two dividends of one sign that differ by at most twice the divisor
/// have quotients that differ by at most two.
proof fn lemma_quotients_close(x: int, y: int, d: int)
    requires
        d > 0,
        (0 <= y <= x && x - y <= 2 * d) || (x <= y <= 0 && y - x <= 2 * d),
    ensures
        abs_int(div_trunc(x, d) - div_trunc(y, d)) <= 2,
{
    let (ax, ay) = (abs_int(x), abs_int(y));
    assert(0 <= ax / d - ay / d <= 2) by (nonlinear_arith)
        requires
            d > 0,
            0 <= ay <= ax,
            ax - ay <= 2 * d,
    ;
}

/// How far the foot of a perpendicular moves along one axis when it is
/// projected again: with `c` the component of the segment along the axis
/// and `g`, `h` the two others, the dividends of the two feet differ by
/// at most twice the squared length of the segment.
proof fn lemma_refoot_component(c: int, g: int, h: int, t: int, t2: int, ee: int, rho: int)
    requires
        ee == c * c + g * g + h * h,
        ee > 0,
        0 <= t2 <= t,
        ee * (t - t2) == rho,
        0 <= rho <= ee * (abs_int(c) + abs_int(g) + abs_int(h)),
    ensures
        abs_int(div_trunc(c * t, ee) - div_trunc(c * t2, ee)) <= 2,
{
    let m = abs_int(c);
    let s = abs_int(c) + abs_int(g) + abs_int(h);
    lemma_twice_product(c, c);
    lemma_twice_product(c, g);
    lemma_twice_product(c, h);
    let (mc, mg, mh) = (m * abs_int(c), m * abs_int(g), m * abs_int(h));
    assert(m * s == mc + mg + mh) by (nonlinear_arith)
        requires
            s == abs_int(c) + abs_int(g) + abs_int(h),
            mc == m * abs_int(c),
            mg == m * abs_int(g),
            mh == m * abs_int(h),
    ;
    assert(g * g >= 0 && h * h >= 0 && c * c >= 0) by (nonlinear_arith);
    assert(m * s <= 2 * ee);
    let dt = t - t2;
    assert(m * dt <= 2 * ee) by (nonlinear_arith)
        requires
            ee > 0,
            m >= 0,
            dt >= 0,
            ee * dt <= ee * s,
            m * s <= 2 * ee,
            s >= 0,
    ;
    assert(c * t - c * t2 == c * dt) by (nonlinear_arith)
        requires
            dt == t - t2,
    ;
    assert(abs_int(c * dt) == m * dt && (c >= 0 ==> c * dt >= 0) && (c <= 0 ==> c * dt <= 0))
        by (nonlinear_arith)
        requires
            m == abs_int(c),
            dt >= 0,
    ;
    assert((c >= 0 ==> c * t2 >= 0) && (c <= 0 ==> c * t2 <= 0)) by (nonlinear_arith)
        requires
            t2 >= 0,
    ;
    lemma_quotients_close(c * t, c * t2, ee);
}

/// Projecting the nearest point of a segment onto the segment again
/// gives the same point where it is an end of the segment, and else a
/// point no farther than two raw units from it along each axis: what
/// rounding the foot of the perpendicular to whole units costs.
pub proof fn lemma_closest_round_trip(p: Int3, a: Int3, b: Int3)
    ensures
        closest_on_segment(closest_on_segment(p, a, b), a, b).minus(
            closest_on_segment(p, a, b),
        ).within(2),
        !projects_inside_segment(p, a, b) ==> closest_on_segment(
            closest_on_segment(p, a, b),
            a,
            b,
        ) == closest_on_segment(p, a, b),
{
    let q = closest_on_segment(p, a, b);
    lemma_closest_to_end(a, b);
    if projects_inside_segment(p, a, b) {
        let e = b.minus(a);
        let t = segment_parameter(p, a, b);
        let ee = e.norm2();
        let u = e.scaled(t).over(ee);
        lemma_foot_component(e.x, t, ee);
        lemma_foot_component(e.y, t, ee);
        lemma_foot_component(e.z, t, ee);
        assert(q.minus(a) == u);
        let t2 = segment_parameter(q, a, b);
        assert(t2 == u.x * e.x + u.y * e.y + u.z * e.z);
        let rx = e.x * t - ee * u.x;
        let ry = e.y * t - ee * u.y;
        let rz = e.z * t - ee * u.z;
        let rho = rx * e.x + ry * e.y + rz * e.z;
        let (cx, cy, cz) = (e.x * e.x, e.y * e.y, e.z * e.z);
        assert(ee * t == cx * t + cy * t + cz * t) by (nonlinear_arith)
            requires
                ee == cx + cy + cz,
        ;
        let (ux, uy, uz) = (u.x * e.x, u.y * e.y, u.z * e.z);
        assert(ee * t2 == ee * ux + ee * uy + ee * uz) by (nonlinear_arith)
            requires
                t2 == ux + uy + uz,
        ;
        assert(ee * t2 == ee * t - rho);
        assert(ee * (t - t2) == rho) by (nonlinear_arith)
            requires
                ee * t2 == ee * t - rho,
        ;
        let s = abs_int(e.x) + abs_int(e.y) + abs_int(e.z);
        assert(ee * s == ee * abs_int(e.x) + ee * abs_int(e.y) + ee * abs_int(e.z))
            by (nonlinear_arith)
            requires
                s == abs_int(e.x) + abs_int(e.y) + abs_int(e.z),
        ;
        assert(0 <= rho <= ee * s);
        assert(t2 <= t) by (nonlinear_arith)
            requires
                ee * (t - t2) == rho,
                rho >= 0,
                ee > 0,
        ;
        if t2 == 0 {
            assert(u == Int3::zero());
            assert(q == a);
        } else {
            lemma_refoot_component(e.x, e.y, e.z, t, t2, ee, rho);
            lemma_refoot_component(e.y, e.z, e.x, t, t2, ee, rho);
            lemma_refoot_component(e.z, e.x, e.y, t, t2, ee, rho);
            assert(projects_inside_segment(q, a, b));
            let u2 = e.scaled(t2).over(ee);
            assert(closest_on_segment(q, a, b) == a.plus(u2));
            assert(a.plus(u2).minus(q) == u2.minus(u));
        }
    }
}

/// A single horizontal triangle right under the capsule of a player who
/// has sunk into its plane lifts the player until the lower end of the
/// capsule lies one radius and [`PUSH_EPSILON`] above the plane.
pub proof fn lemma_floor_resolves(t: Triangle, pos: Int3)
    requires
        pos.within(COORD_MAX as int),
        t.wf(),
        t.normal@ == up(SCALE as int),
        player_capsule(pos).c0.y >= t.p0@.y,
        abs_int(player_capsule(pos).c1.y - t.p0@.y) < abs_int(player_capsule(pos).c0.y - t.p0@.y),
        abs_int(player_capsule(pos).c1.y - t.p0@.y) < player_capsule(pos).radius,
        inside_triangle(dropped_onto(player_capsule(pos).c1, t), t),
    ensures
        resolved_displacement(seq![t], pos) == up(
            t.p0@.y + PLAYER_CAPSULE_RADIUS - player_capsule(pos).c1.y + PUSH_EPSILON,
        ),
        player_capsule(pos).displaced(resolved_displacement(seq![t], pos)).c1.y == t.p0@.y
            + PLAYER_CAPSULE_RADIUS + PUSH_EPSILON,
{
    let c = player_capsule(pos);
    let tris = seq![t];
    let depth = t.p0@.y + c.radius - c.c1.y;
    lemma_floor_pushes_up(c, t);
    lemma_displaced_twice(c, Int3::zero(), Int3::zero());
    assert(tris[0] == t);
    assert(displacement_after(c, tris, 0) == Int3::zero());
    assert(nudged(up(depth)) == up(depth + PUSH_EPSILON));
    assert(c.displaced(up(depth + PUSH_EPSILON)).wf());
    assert(correction(c, t) == up(depth + PUSH_EPSILON));
    assert(displacement_after(c, tris, 1) == Int3::zero().plus(correction(c.displaced(Int3::zero()), tris[0])));
}

/// No keys held and no jump asked for.
pub open spec fn idle(input: MoveInput) -> bool {
    !input.forward && !input.back && !input.left && !input.right && !input.jump_pressed
}

/// A player who stands still on a single horizontal triangle, with the
/// lower end of the capsule more than one radius and less than
/// [`GROUNDED_HEIGHT`] above it and a probe over it, stays where it is
/// for a step without keys: neither friction nor gravity nor the
/// triangle moves it.
pub proof fn lemma_rest_is_stable(
    p: PlayerState,
    input: MoveInput,
    look: Int3,
    t: Triangle,
    dt: int,
)
    requires
        p.wf(),
        p.velocity == Int3::zero(),
        !p.gonna_jump,
        idle(input),
        p.position.y >= WORLD_FLOOR,
        t.normal@ == up(SCALE as int),
        PLAYER_CAPSULE_RADIUS < player_capsule(p.position).c1.y - t.p0@.y < GROUNDED_HEIGHT,
        probe_over(
            player_capsule(p.position).c1,
            probe_directions(None).0,
            probe_directions(None).1,
            t,
        ),
    ensures
        p.after_tick(input, look, seq![t], dt) == (PlayerState {
            forward: look,
            prev_is_grounded: true,
            ..p
        }),
{
    let tris = seq![t];
    let zero = Int3::zero();
    let c = player_capsule(p.position);
    assert(tris[0] == t);
    // The player has no direction of movement, and stands on the triangle.
    lemma_norm2_nonnegative(horizontal_part(zero));
    assert(horizontal_part(zero) == zero);
    assert(zero.norm2() == 0) by (nonlinear_arith)
        requires
            zero.norm2() == 0 * 0 + 0 * 0 + 0 * 0,
    ;
    assert(horizontal_direction(p.velocity).is_none());
    lemma_resting_is_grounded(tris, p.position, None);
    // Without keys there is no wish, and nothing accelerates.
    let ahead = horizontal_or_zero(look);
    let wish = wish_direction(input, ahead);
    assert(wish == zero);
    assert(zero.length() == 0) by {
        lemma_isqrt_square(0);
        assert(0int * 0int == 0) by (nonlinear_arith);
    }
    assert(friction_applied(zero, dt) == zero);
    lemma_zero_products(dt);
    assert(zero.dot(zero) == 0);
    let full = div_trunc(GROUND_ACCELERATION * MAX_SPEED_ON_ONE_DIMENSION * dt, 1_000_000_000_000);
    lemma_zero_products(full);
    lemma_zero_products(MAX_SPEED_ON_ONE_DIMENSION as int);
    assert(accelerated(zero, zero, GROUND_ACCELERATION as int, dt) == zero);
    let n = up(SCALE as int);
    assert(n.norm2() == 1_000_000_000_000) by (nonlinear_arith)
        requires
            n.norm2() == 0 * 0 + SCALE * SCALE + 0 * 0,
            SCALE == 1_000_000,
    ;
    assert(zero.dot(n) == 0) by (nonlinear_arith)
        requires
            zero.dot(n) == 0 * 0 + 0 * SCALE + 0 * 0,
    ;
    lemma_zero_products(SCALE as int);
    assert(n.scaled(0) == zero);
    assert(vector_on_plane(zero, n) == zero);
    assert(ground_velocity(zero, zero, n, dt, p.prev_is_grounded, false) == zero);
    let steered = p.steered(input, look, tris, dt);
    assert(steered.velocity == zero);
    assert(zero.scaled(dt) == zero);
    let moved = steered.advanced(dt);
    assert(moved.position == p.position);
    // The triangle is out of reach of the capsule.
    lemma_horizontal_plane(c.c0, t);
    lemma_horizontal_plane(c.c1, t);
    lemma_far_plane_no_push(c, t);
    lemma_untouched_stays(tris, p.position, 1);
    assert(resolved_displacement(tris, p.position) == zero);
    assert(zero.normalized() == zero);
    assert(vector_on_plane(zero, zero) == zero);
    assert(moved.resolved(tris).position == p.position);
    assert(moved.resolved(tris).velocity == zero);
}

/// Zero times anything is zero, and zero divided by the scale is zero.
proof fn lemma_zero_products(k: int)
    ensures
        0 * k == 0,
        k * 0 == 0,
        div_trunc(0, SCALE as int) == 0,
        div_trunc(0 * k, SCALE as int) == 0,
        MAX_SPEED_ON_ONE_DIMENSION - div_trunc(0, SCALE as int) >= 0,
{
    assert(0 * k == 0 && k * 0 == 0) by (nonlinear_arith);
}

} // verus!

//! The capsule of the player against the triangles of the world: how far
//! a triangle pushes the capsule out, the sum of the pushes of a list of
//! triangles, and whether the capsule stands on ground.
use vstd::prelude::*;
use crate::fixed::{
    abs_int, div_trunc, lemma_div_trunc_bounds, lemma_div_trunc_le, lemma_isqrt_monotone,
    lemma_isqrt_square, lemma_product_bound, sign_int, COORD_MAX, EPSILON, REACH, SCALE,
};
use crate::geom::{
    closest_on_segment, closest_on_triangle, distance, distance_between,
    get_closest_point_on_line_segment, get_closest_point_on_triangle, inside_triangle,
    is_point_in_triangle, is_projection_on_line_segment, lemma_dot_plus, lemma_near_unit_within,
    lemma_projection_on_plane, lemma_projection_step, lemma_step_component, midpoint,
    midpoint_of, plane_distance,
    plane_offset, plane_projection, point_triangle_plane_distance, point_triangle_plane_offset,
    project_point_on_triangle_plane, projects_inside_segment, ray_hit, ray_triangle_check,
    Triangle,
};
use crate::vector::{lemma_minus_bound, lemma_norm2_bound, mul_wide, Int3, Vec3};

verus! {

/// Height of the segment of the player's capsule: one world unit.
pub const PLAYER_HEIGHT: i64 = 1_000_000;

/// Radius of the player's capsule: half a world unit.
pub const PLAYER_CAPSULE_RADIUS: i64 = 500_000;

/// Largest radius of a capsule: two world units.
///
/// Together with [`MAX_SPAN`] it keeps every point of a capsule that
/// touches a plane within sixteen world units of that plane. From no
/// farther can a point be projected onto the plane up to [`EPSILON`]:
/// each world unit of the way costs up to six raw units, the share by
/// which a rounded unit normal may be too long or too short.
pub const MAX_RADIUS: i64 = 2_000_000;

/// Largest extent of the segment of a capsule along each axis: three world
/// units.
pub const MAX_SPAN: i64 = 3_000_000;

/// Largest magnitude of a coordinate of an end of a capsule's segment:
/// twice [`COORD_MAX`].
pub const CAPSULE_MAX: i64 = 1_000_000_000;

/// The vertical vector of length `r`.
pub open spec fn up(r: int) -> Int3 {
    Int3 { x: 0, y: r, z: 0 }
}

/// The mathematical model of a [`PlayerShape`].
pub struct Capsule {
    /// Upper end of the segment.
    pub c0: Int3,
    /// Lower end of the segment.
    pub c1: Int3,
    pub radius: int,
    /// Topmost point of the upper cap.
    pub tip0: Int3,
    /// Lowest point of the lower cap.
    pub tip1: Int3,
}

impl Capsule {
    /// The radius is positive, the upper end lies above the lower one, the
    /// tips sit one radius above and below the ends, and ends and radius
    /// are within their limits.
    pub open spec fn wf(self) -> bool {
        &&& 0 < self.radius <= MAX_RADIUS
        &&& self.c0.y > self.c1.y
        &&& self.c0.within(CAPSULE_MAX as int)
        &&& self.c1.within(CAPSULE_MAX as int)
        &&& self.c0.minus(self.c1).within(MAX_SPAN as int)
        &&& self.tip0 == self.c0.plus(up(self.radius))
        &&& self.tip1 == self.c1.minus(up(self.radius))
    }

    /// The capsule moved by `d`.
    pub open spec fn displaced(self, d: Int3) -> Capsule {
        Capsule {
            c0: self.c0.plus(d),
            c1: self.c1.plus(d),
            radius: self.radius,
            tip0: self.tip0.plus(d),
            tip1: self.tip1.plus(d),
        }
    }

    /// The capsule on the segment from `c0` down to `c1`.
    pub open spec fn on_segment(c0: Int3, c1: Int3, radius: int) -> Capsule {
        Capsule { c0, c1, radius, tip0: c0.plus(up(radius)), tip1: c1.minus(up(radius)) }
    }

    /// The upright capsule centred at `position`, its segment `height`
    /// long up to one raw unit.
    pub open spec fn upright(position: Int3, height: int, radius: int) -> Capsule {
        Capsule::on_segment(position.plus(up(height / 2)), position.minus(up(height / 2)), radius)
    }
}

/// Both ends of the capsule lie strictly behind the plane of `t`.
pub open spec fn behind(c: Capsule, t: Triangle) -> bool {
    plane_offset(c.c0, t) < 0 && plane_offset(c.c1, t) < 0
}

/// The capsule of the player: a vertical segment, a radius, and the two
/// extreme points of the caps.
#[derive(Clone, Copy, Debug)]
pub struct PlayerShape {
    pub capsule0: Vec3,
    pub capsule1: Vec3,
    pub radius: i64,
    pub tip0: Vec3,
    pub tip1: Vec3,
}

impl View for PlayerShape {
    type V = Capsule;

    open spec fn view(&self) -> Capsule {
        Capsule {
            c0: self.capsule0@,
            c1: self.capsule1@,
            radius: self.radius as int,
            tip0: self.tip0@,
            tip1: self.tip1@,
        }
    }
}

impl PlayerShape {
    /// The upright capsule centred at `position`.
    pub fn new(position: Vec3, height: i64, radius: i64) -> (s: PlayerShape)
        requires
            position@.within(COORD_MAX as int),
            2 <= height <= MAX_SPAN,
            0 < radius <= MAX_RADIUS,
        ensures
            s@ == Capsule::upright(position@, height as int, radius as int),
            s@.wf(),
    {
        let half_height: i64 = height / 2;
        PlayerShape {
            capsule0: Vec3 { x: position.x, y: position.y + half_height, z: position.z },
            capsule1: Vec3 { x: position.x, y: position.y - half_height, z: position.z },
            radius,
            tip0: Vec3 { x: position.x, y: position.y + half_height + radius, z: position.z },
            tip1: Vec3 { x: position.x, y: position.y - half_height - radius, z: position.z },
        }
    }

    /// The capsule on the segment from `c0` down to `c1`.
    pub fn with_capsule_points(c0: Vec3, c1: Vec3, radius: i64) -> (s: PlayerShape)
        requires
            Capsule::on_segment(c0@, c1@, radius as int).wf(),
        ensures
            s@ == Capsule::on_segment(c0@, c1@, radius as int),
    {
        PlayerShape {
            capsule0: c0,
            capsule1: c1,
            radius,
            tip0: Vec3 { x: c0.x, y: c0.y + radius, z: c0.z },
            tip1: Vec3 { x: c1.x, y: c1.y - radius, z: c1.z },
        }
    }

    /// Moves the whole capsule by `displacement`.
    pub fn displace(&mut self, displacement: Vec3)
        requires
            old(self)@.wf(),
            old(self)@.displaced(displacement@).wf(),
        ensures
            final(self)@ == old(self)@.displaced(displacement@),
    {
        self.capsule0 = self.capsule0.plus(displacement);
        self.capsule1 = self.capsule1.plus(displacement);
        self.tip0 = self.tip0.plus(displacement);
        self.tip1 = self.tip1.plus(displacement);
    }

    /// Whether both ends of the capsule lie strictly behind the plane of
    /// `tri`, which then cannot push the capsule.
    pub fn is_behind_triangle(&self, tri: &Triangle) -> (b: bool)
        requires
            self@.wf(),
            tri.wf(),
        ensures
            b == behind(self@, *tri),
    {
        point_triangle_plane_offset(self.capsule0, *tri) < 0
            && point_triangle_plane_offset(self.capsule1, *tri) < 0
    }
}

/// The point of the capsule's axis from which the push of `t` is
/// measured: the end of the segment nearer to the plane of `t`, and the
/// middle of the segment where both ends are equally near.
pub open spec fn closer_point(c: Capsule, t: Triangle) -> Int3 {
    if plane_distance(c.c0, t) < plane_distance(c.c1, t) {
        c.c0
    } else if plane_distance(c.c0, t) > plane_distance(c.c1, t) {
        c.c1
    } else {
        midpoint_of(c.c0, c.c1)
    }
}

/// The point of the capsule's surface that belongs to [`closer_point`]:
/// the tip above the upper end, the tip below the lower end, and for the
/// middle of the segment the point one radius against the normal.
pub open spec fn closer_tip(c: Capsule, t: Triangle) -> Int3 {
    if plane_distance(c.c0, t) < plane_distance(c.c1, t) {
        c.c0.plus(up(c.radius))
    } else if plane_distance(c.c0, t) > plane_distance(c.c1, t) {
        c.c1.minus(up(c.radius))
    } else {
        midpoint_of(c.c0, c.c1).minus(t.normal@.scaled(c.radius).over(SCALE as int))
    }
}

/// The smaller of the plane distances of the two ends of the segment.
pub open spec fn closer_distance(c: Capsule, t: Triangle) -> int {
    if plane_distance(c.c0, t) < plane_distance(c.c1, t) {
        plane_distance(c.c0, t)
    } else {
        plane_distance(c.c1, t)
    }
}

/// One of three points of the capsule falls into `t` when projected onto
/// its plane: [`closer_point`] or one of the two tips.
pub open spec fn projection_inside(c: Capsule, t: Triangle) -> bool {
    ||| inside_triangle(plane_projection(closer_point(c, t), t), t)
    ||| inside_triangle(plane_projection(c.tip0, t), t)
    ||| inside_triangle(plane_projection(c.tip1, t), t)
}

/// The push out of the face of `t`: along the normal, as long as
/// [`closer_tip`] is far from the projection of [`closer_point`].
pub open spec fn planar_push(c: Capsule, t: Triangle) -> Int3 {
    let depth = distance(closer_tip(c, t), plane_projection(closer_point(c, t), t));
    t.normal@.scaled(depth).over(SCALE as int)
}

/// The point of the boundary of `t` nearest to the projection of
/// [`closer_point`].
pub open spec fn boundary_point(c: Capsule, t: Triangle) -> Int3 {
    closest_on_triangle(plane_projection(closer_point(c, t), t), t)
}

/// The distance from the projection of [`closer_point`] to the boundary
/// of `t`, within the plane.
pub open spec fn boundary_distance(c: Capsule, t: Triangle) -> int {
    distance(plane_projection(closer_point(c, t), t), boundary_point(c, t))
}

/// The square of the separation between the capsule's segment and the
/// boundary of `t`. Where the boundary point faces the inside of the
/// segment it is the squared distance between the two; where it faces an
/// end, the sum of the squares of the plane distance and of the distance
/// within the plane.
pub open spec fn separation2(c: Capsule, t: Triangle) -> int {
    let q = boundary_point(c, t);
    if projects_inside_segment(q, c.c0, c.c1) {
        let d = distance(q, closest_on_segment(q, c.c0, c.c1));
        d * d
    } else {
        let a = closer_distance(c, t);
        let b = boundary_distance(c, t);
        a * a + b * b
    }
}

/// The push away from the boundary of `t`: from the boundary point
/// towards the projection of [`closer_point`], as long as the radius
/// exceeds the distance between the two.
pub open spec fn edge_push(c: Capsule, t: Triangle) -> Int3 {
    let pp = plane_projection(closer_point(c, t), t);
    pp.minus(boundary_point(c, t)).normalized().scaled(c.radius - boundary_distance(c, t)).over(
        SCALE as int,
    )
}

/// The displacement that takes the capsule out of `t`, and `None` where
/// the two do not touch: where the capsule lies behind the triangle,
/// where it is farther from the plane than its radius, and where it
/// projects outside the triangle and keeps at least its radius from the
/// boundary.
pub open spec fn penetration(c: Capsule, t: Triangle) -> Option<Int3> {
    if behind(c, t) {
        None
    } else if closer_distance(c, t) > c.radius {
        None
    } else if projection_inside(c, t) {
        Some(planar_push(c, t))
    } else if separation2(c, t) >= c.radius * c.radius {
        None
    } else {
        Some(edge_push(c, t))
    }
}

/// `x` lies close to both ends of the segment of `c`: within
/// [`MAX_SPAN`] sideways and within [`MAX_SPAN`] plus [`MAX_RADIUS`]
/// vertically.
pub open spec fn near_capsule(x: Int3, c: Capsule) -> bool {
    &&& near_point(x, c.c0)
    &&& near_point(x, c.c1)
}

/// `x` lies within [`MAX_SPAN`] of `e` sideways and within [`MAX_SPAN`]
/// plus [`MAX_RADIUS`] vertically.
pub open spec fn near_point(x: Int3, e: Int3) -> bool {
    &&& abs_int(x.x - e.x) <= MAX_SPAN
    &&& abs_int(x.y - e.y) <= MAX_SPAN + MAX_RADIUS
    &&& abs_int(x.z - e.z) <= MAX_SPAN
}

/// A point close to a point that lies within two world units of the
/// plane of `t` lies within sixteen world units of that plane.
proof fn lemma_near_point_plane(x: Int3, e: Int3, t: Triangle)
    requires
        t.wf(),
        near_point(x, e),
        plane_distance(e, t) <= MAX_RADIUS,
    ensures
        plane_distance(x, t) <= 16 * SCALE,
{
    let n = t.normal@;
    lemma_near_unit_within(n);
    lemma_dot_plus(e.minus(t.p0@), x.minus(e), n);
    assert(e.minus(t.p0@).plus(x.minus(e)) == x.minus(t.p0@));
    lemma_product_bound(x.x - e.x, n.x, MAX_SPAN as int, SCALE + 2);
    lemma_product_bound(x.y - e.y, n.y, MAX_SPAN + MAX_RADIUS, SCALE + 2);
    lemma_product_bound(x.z - e.z, n.z, MAX_SPAN as int, SCALE + 2);
    assert(MAX_SPAN * (SCALE + 2) == 3_000_006_000_000) by (nonlinear_arith)
        requires
            MAX_SPAN == 3_000_000,
            SCALE == 1_000_000,
    ;
    assert((MAX_SPAN + MAX_RADIUS) * (SCALE + 2) == 5_000_010_000_000) by (nonlinear_arith)
        requires
            MAX_SPAN == 3_000_000,
            MAX_RADIUS == 2_000_000,
            SCALE == 1_000_000,
    ;
    assert(abs_int(x.minus(e).dot(n)) <= 11_000_022_000_000);
    assert(abs_int(plane_offset(e, t)) < 2_000_001_000_000);
    assert(abs_int(plane_offset(x, t)) < 13_000_023_000_000);
}

/// A point close to a capsule that reaches the plane of `t` lies within
/// sixteen world units of that plane, and within [`REACH`].
pub proof fn lemma_near_capsule_plane(x: Int3, c: Capsule, t: Triangle)
    requires
        c.wf(),
        t.wf(),
        near_capsule(x, c),
        closer_distance(c, t) <= c.radius,
    ensures
        plane_distance(x, t) <= 16 * SCALE,
        x.within(CAPSULE_MAX + MAX_SPAN + MAX_RADIUS),
{
    if plane_distance(c.c0, t) < plane_distance(c.c1, t) {
        lemma_near_point_plane(x, c.c0, t);
    } else {
        lemma_near_point_plane(x, c.c1, t);
    }
}

/// A vector with no component beyond `m` is at most `2 m` long.
pub proof fn lemma_length_bound(v: Int3, m: int)
    requires
        v.within(m),
    ensures
        0 <= v.length() <= 2 * m,
{
    lemma_norm2_bound(v, m);
    assert(3 * (m * m) <= (2 * m) * (2 * m)) by (nonlinear_arith);
    lemma_isqrt_monotone(v.norm2(), (2 * m) * (2 * m));
    assert(m >= 0);
    lemma_isqrt_square(2 * m);
    lemma_isqrt_monotone(0, v.norm2());
}

/// A component of a unit vector times `k`, brought back to scale, is at
/// most `k` in magnitude.
pub proof fn lemma_unit_times(c: int, k: int)
    requires
        abs_int(c) <= SCALE,
    ensures
        abs_int(div_trunc(c * k, SCALE as int)) <= abs_int(k),
{
    lemma_product_bound(c, k, SCALE as int, abs_int(k));
    lemma_div_trunc_le(c * k, SCALE as int, abs_int(k));
}

/// The three points from which the push of `triangle` is measured: the
/// reference point on the axis, its tip, and the smaller plane distance
/// of the two ends.
fn closer_reference(shape: &PlayerShape, triangle: &Triangle) -> (r: (Vec3, Vec3, i64))
    requires
        shape@.wf(),
        triangle.wf(),
    ensures
        r.0@ == closer_point(shape@, *triangle),
        r.1@ == closer_tip(shape@, *triangle),
        r.2 == closer_distance(shape@, *triangle),
        near_capsule(r.0@, shape@),
        r.1@.minus(r.0@).within(2 * MAX_RADIUS),
{
    let dist1: i64 = point_triangle_plane_distance(shape.capsule0, *triangle);
    let dist2: i64 = point_triangle_plane_distance(shape.capsule1, *triangle);
    let r: i64 = shape.radius;
    if dist1 < dist2 {
        let c: Vec3 = shape.capsule0;
        (c, Vec3 { x: c.x, y: c.y + r, z: c.z }, dist1)
    } else if dist1 > dist2 {
        let c: Vec3 = shape.capsule1;
        (c, Vec3 { x: c.x, y: c.y - r, z: c.z }, dist2)
    } else {
        let mid: Vec3 = midpoint(shape.capsule0, shape.capsule1);
        proof {
            lemma_near_unit_within(triangle.normal@);
            lemma_step_component(triangle.normal.x as int, r as int);
            lemma_step_component(triangle.normal.y as int, r as int);
            lemma_step_component(triangle.normal.z as int, r as int);
            lemma_div_trunc_bounds(shape.capsule1.x - shape.capsule0.x, 2);
            lemma_div_trunc_bounds(shape.capsule1.y - shape.capsule0.y, 2);
            lemma_div_trunc_bounds(shape.capsule1.z - shape.capsule0.z, 2);
        }
        let back: Vec3 = triangle.normal.scaled_over(r, SCALE as i128);
        (mid, mid.minus(back), dist1)
    }
}

/// The push away from the boundary of `triangle`, for a capsule whose
/// reference point projects to `pp`, outside the triangle.
fn edge_penetration(shape: &PlayerShape, triangle: &Triangle, pp: Vec3, dist: i64) -> (r: Option<
    Vec3,
>)
    requires
        shape@.wf(),
        triangle.wf(),
        pp@ == plane_projection(closer_point(shape@, *triangle), *triangle),
        pp@.within(1_037_000_000),
        dist == closer_distance(shape@, *triangle),
        0 <= dist <= shape.radius,
    ensures
        match r {
            Some(v) => separation2(shape@, *triangle) < shape@.radius * shape@.radius && v@
                == edge_push(shape@, *triangle) && v@.within(REACH as int),
            None => separation2(shape@, *triangle) >= shape@.radius * shape@.radius,
        },
{
    let (q, b) = get_closest_point_on_triangle(pp, *triangle);
    let on_segment: bool = is_projection_on_line_segment(q, shape.capsule0, shape.capsule1);
    proof {
        lemma_minus_bound(pp@, q@, 1_037_000_000, COORD_MAX as int);
        lemma_length_bound(pp@.minus(q@), 1_537_000_000);
        lemma_norm2_bound(pp@.minus(q@), 1_537_000_000);
    }
    let separation: i128 = if on_segment {
        let (foot, seg_d) = get_closest_point_on_line_segment(q, shape.capsule0, shape.capsule1);
        proof {
            lemma_minus_bound(q@, foot@, REACH as int, REACH as int);
            lemma_length_bound(q@.minus(foot@), 2 * REACH);
        }
        mul_wide(seg_d, seg_d)
    } else {
        proof {
            lemma_product_bound(dist as int, dist as int, MAX_RADIUS as int, MAX_RADIUS as int);
            lemma_product_bound(b as int, b as int, 3_074_000_000, 3_074_000_000);
        }
        mul_wide(dist, dist) + mul_wide(b, b)
    };
    if separation >= mul_wide(shape.radius, shape.radius) {
        return None;
    }
    let dir: Vec3 = pp.minus(q).normalized();
    let k: i64 = shape.radius - b;
    proof {
        lemma_unit_times(dir.x as int, k as int);
        lemma_unit_times(dir.y as int, k as int);
        lemma_unit_times(dir.z as int, k as int);
    }
    Some(dir.scaled_over(k, SCALE as i128))
}

/// A point close to a capsule that reaches the plane of `t` can be
/// projected: it lies within [`REACH`], and its projection lies on the
/// plane up to [`EPSILON`] and no farther from it than thirty-two world
/// units along each axis.
pub proof fn lemma_probe_point(x: Int3, c: Capsule, t: Triangle)
    requires
        c.wf(),
        t.wf(),
        near_capsule(x, c),
        closer_distance(c, t) <= c.radius,
    ensures
        x.within(CAPSULE_MAX + MAX_SPAN + MAX_RADIUS),
        plane_distance(plane_projection(x, t), t) <= EPSILON,
        plane_projection(x, t).minus(x).within(32 * SCALE),
        plane_projection(x, t).within(1_037_000_000),
{
    lemma_near_capsule_plane(x, c, t);
    lemma_projection_on_plane(x, t);
    lemma_projection_step(x, t);
}

/// The push out of the face of `triangle`: along the normal, as long as
/// `tip` is far from `pp`.
fn planar_penetration(triangle: &Triangle, tip: Vec3, pp: Vec3) -> (v: Vec3)
    requires
        triangle.wf(),
        tip@.within(REACH as int),
        pp@.within(REACH as int),
        tip@.minus(pp@).within(36 * SCALE),
    ensures
        v@ == triangle.normal@.scaled(distance(tip@, pp@)).over(SCALE as int),
        v@.within(REACH as int),
{
    let depth: i64 = distance_between(tip, pp);
    proof {
        lemma_length_bound(tip@.minus(pp@), 36 * SCALE);
        lemma_near_unit_within(triangle.normal@);
        lemma_step_component(triangle.normal.x as int, depth as int);
        lemma_step_component(triangle.normal.y as int, depth as int);
        lemma_step_component(triangle.normal.z as int, depth as int);
    }
    triangle.normal.scaled_over(depth, SCALE as i128)
}

/// The displacement that takes the capsule out of `triangle`, and `None`
/// where the two do not touch.
#[verifier::rlimit(40)]
pub fn compute_penetration(player_shape: PlayerShape, triangle: Triangle) -> (r: Option<Vec3>)
    requires
        player_shape@.wf(),
        triangle.wf(),
    ensures
        match r {
            Some(v) => penetration(player_shape@, triangle) == Some(v@) && v@.within(REACH as int),
            None => penetration(player_shape@, triangle).is_none(),
        },
{
    if player_shape.is_behind_triangle(&triangle) {
        return None;
    }
    let (closer, tip, dist) = closer_reference(&player_shape, &triangle);
    if dist > player_shape.radius {
        return None;
    }
    proof {
        let c = player_shape@;
        assert(near_point(c.tip0, c.c0) && near_point(c.tip0, c.c1));
        assert(near_point(c.tip1, c.c0) && near_point(c.tip1, c.c1));
        lemma_probe_point(closer@, c, triangle);
        lemma_probe_point(c.tip0, c, triangle);
        lemma_probe_point(c.tip1, c, triangle);
    }
    let pp: Vec3 = project_point_on_triangle_plane(closer, triangle);
    let pp0: Vec3 = project_point_on_triangle_plane(player_shape.tip0, triangle);
    let pp1: Vec3 = project_point_on_triangle_plane(player_shape.tip1, triangle);
    if is_point_in_triangle(pp, triangle) || is_point_in_triangle(pp0, triangle)
        || is_point_in_triangle(pp1, triangle) {
        assert(tip@.minus(pp@) == tip@.minus(closer@).minus(pp@.minus(closer@)));
        Some(planar_penetration(&triangle, tip, pp))
    } else {
        edge_penetration(&player_shape, &triangle, pp, dist)
    }
}

/// The small vertical margin added to every push that has a vertical
/// part, so that a capsule pushed out of a floor does not rest flush on
/// it: a ten-thousandth of a world unit.
pub const PUSH_EPSILON: i64 = 100;

/// `v` with its vertical component moved away from zero by
/// [`PUSH_EPSILON`]; a `v` without vertical component stays as it is.
pub open spec fn nudged(v: Int3) -> Int3 {
    Int3 { x: v.x, y: v.y + PUSH_EPSILON * sign_int(v.y), z: v.z }
}

/// What the triangle `t` adds to the displacement of a capsule that has
/// come to lie at `c`: its nudged push, and nothing where it does not
/// touch the capsule or would push it out of the limits of a capsule.
pub open spec fn correction(c: Capsule, t: Triangle) -> Int3 {
    match penetration(c, t) {
        Some(v) => if c.displaced(nudged(v)).wf() {
            nudged(v)
        } else {
            Int3::zero()
        },
        None => Int3::zero(),
    }
}

/// The displacement of the capsule `c` after the first `k` triangles of
/// `tris` have pushed it, one after the other, each against the capsule
/// as the ones before left it.
pub open spec fn displacement_after(c: Capsule, tris: Seq<Triangle>, k: nat) -> Int3
    decreases k,
{
    if k == 0 {
        Int3::zero()
    } else {
        let before = displacement_after(c, tris, (k - 1) as nat);
        before.plus(correction(c.displaced(before), tris[k - 1]))
    }
}

/// The capsule of a player who stands at `pos`.
pub open spec fn player_capsule(pos: Int3) -> Capsule {
    Capsule::upright(pos, PLAYER_HEIGHT as int, PLAYER_CAPSULE_RADIUS as int)
}

/// The displacement that takes a player at `pos` out of the triangles
/// `tris`, one after the other in the order of the sequence.
pub open spec fn resolved_displacement(tris: Seq<Triangle>, pos: Int3) -> Int3 {
    displacement_after(player_capsule(pos), tris, tris.len())
}

/// Two displacements in a row are one displacement by their sum, and no
/// displacement leaves the capsule where it is.
pub proof fn lemma_displaced_twice(c: Capsule, a: Int3, b: Int3)
    ensures
        c.displaced(a).displaced(b) == c.displaced(a.plus(b)),
        c.displaced(Int3::zero()) == c,
{
}

impl PlayerShape {
    /// Whether the capsule moved by `displacement` is still within the
    /// limits of a capsule.
    pub fn can_displace(&self, displacement: Vec3) -> (b: bool)
        requires
            self@.wf(),
            displacement@.within(2 * REACH),
        ensures
            b == self@.displaced(displacement@).wf(),
    {
        let c0: Vec3 = self.capsule0.plus(displacement);
        let c1: Vec3 = self.capsule1.plus(displacement);
        c0.is_within(CAPSULE_MAX) && c1.is_within(CAPSULE_MAX)
    }
}

/// The push `v` with its vertical margin.
pub fn nudge(v: Vec3) -> (r: Vec3)
    requires
        v@.within(REACH as int),
    ensures
        r@ == nudged(v@),
{
    if v.y > 0 {
        Vec3 { x: v.x, y: v.y + PUSH_EPSILON, z: v.z }
    } else if v.y < 0 {
        Vec3 { x: v.x, y: v.y - PUSH_EPSILON, z: v.z }
    } else {
        v
    }
}

/// The displacement that takes a player at `player_pos` out of the
/// triangles, which push the capsule one after the other in the order of
/// the list: each is held against the capsule as the ones before left it.
pub fn resolve_penetration(triangles: &Vec<Triangle>, player_pos: Vec3) -> (total: Vec3)
    requires
        player_pos@.within(COORD_MAX as int),
        forall|i: int| 0 <= i < triangles.len() ==> (#[trigger] triangles[i]).wf(),
    ensures
        total@ == resolved_displacement(triangles@, player_pos@),
        total@.within(2 * CAPSULE_MAX),
{
    let mut player_shape: PlayerShape = PlayerShape::new(
        player_pos,
        PLAYER_HEIGHT,
        PLAYER_CAPSULE_RADIUS,
    );
    let ghost start: Capsule = player_shape@;
    let mut total_displacement: Vec3 = Vec3::zero();
    let mut i: usize = 0;
    proof {
        lemma_displaced_twice(start, Int3::zero(), Int3::zero());
    }
    while i < triangles.len()
        invariant
            i <= triangles.len(),
            forall|j: int| 0 <= j < triangles.len() ==> (#[trigger] triangles[j]).wf(),
            start.wf(),
            player_shape@.wf(),
            player_shape@ == start.displaced(total_displacement@),
            total_displacement@ == displacement_after(start, triangles@, i as nat),
        decreases triangles.len() - i,
    {
        let tri: Triangle = triangles[i];
        let ghost before = total_displacement@;
        if let Some(penet) = compute_penetration(player_shape, tri) {
            let push: Vec3 = nudge(penet);
            if player_shape.can_displace(push) {
                proof {
                    lemma_displaced_twice(start, before, push@);
                }
                player_shape.displace(push);
                total_displacement = total_displacement.plus(push);
            }
        }
        i += 1;
    }
    total_displacement
}

/// How far below the lower end of the capsule ground still counts as
/// stood on: a little more than the radius.
pub const GROUNDED_HEIGHT: i64 = 510_000;

/// How far from the capsule's axis the four probes for ground start: a
/// little less than the radius.
pub const GHOST_RAY_OFFSET: i64 = 490_000;

/// `v` turned by a quarter turn about the vertical axis.
pub open spec fn quarter_turn(v: Int3) -> Int3 {
    Int3 { x: v.z, y: v.y, z: -v.x }
}

/// The unit vector that points down.
pub open spec fn down() -> Int3 {
    Int3 { x: 0, y: -(SCALE as int), z: 0 }
}

/// The two horizontal directions along which the probes for ground are
/// set off from the capsule's axis: the direction of movement and the one
/// across it, or the two horizontal axes of the world for a player who
/// does not move.
pub open spec fn probe_directions(move_dir: Option<Int3>) -> (Int3, Int3) {
    match move_dir {
        Some(v) => (v, quarter_turn(v)),
        None => (Int3 { x: SCALE as int, y: 0, z: 0 }, Int3 { x: 0, y: 0, z: SCALE as int }),
    }
}

/// The offset of a probe from the capsule's axis along `dir`.
pub open spec fn probe_offset(dir: Int3) -> Int3 {
    dir.scaled(GHOST_RAY_OFFSET as int).over(SCALE as int)
}

/// The ray from `orig` straight down hits `t` less than
/// [`GROUNDED_HEIGHT`] below `orig`.
pub open spec fn ray_reaches_ground(orig: Int3, t: Triangle) -> bool {
    match ray_hit(orig, down(), t) {
        Some(k) => k < GROUNDED_HEIGHT,
        None => false,
    }
}

/// One of the four probes around `center`, set off forwards, backwards
/// and to both sides, reaches `t`.
pub open spec fn stands_on(center: Int3, forward: Int3, side: Int3, t: Triangle) -> bool {
    ||| ray_reaches_ground(center.plus(probe_offset(forward)), t)
    ||| ray_reaches_ground(center.minus(probe_offset(forward)), t)
    ||| ray_reaches_ground(center.plus(probe_offset(side)), t)
    ||| ray_reaches_ground(center.minus(probe_offset(side)), t)
}

/// Whether a probe reaches one of the triangles from the `i`-th on, and
/// the normal of the first such triangle; the zero vector if there is
/// none.
pub open spec fn ground_from(
    tris: Seq<Triangle>,
    center: Int3,
    forward: Int3,
    side: Int3,
    i: nat,
) -> (bool, Int3)
    decreases tris.len() - i,
{
    if i >= tris.len() {
        (false, Int3::zero())
    } else if stands_on(center, forward, side, tris[i as int]) {
        (true, tris[i as int].normal@)
    } else {
        ground_from(tris, center, forward, side, i + 1)
    }
}

/// Whether a player at `pos` stands on one of the triangles, and the
/// normal of the first triangle of the sequence that carries the player.
pub open spec fn ground_contact(tris: Seq<Triangle>, pos: Int3, move_dir: Option<Int3>) -> (
    bool,
    Int3,
) {
    let dirs = probe_directions(move_dir);
    ground_from(tris, player_capsule(pos).c1, dirs.0, dirs.1, 0)
}

/// Whether the ray from `orig` straight down hits `tri` less than
/// [`GROUNDED_HEIGHT`] below `orig`.
fn probe_reaches(orig: Vec3, tri: Triangle) -> (b: bool)
    requires
        orig@.within(REACH as int),
        tri.wf(),
    ensures
        b == ray_reaches_ground(orig@, tri),
{
    let ray_direction: Vec3 = Vec3 { x: 0, y: -SCALE, z: 0 };
    match ray_triangle_check(orig, ray_direction, tri) {
        Some(t) => t < GROUNDED_HEIGHT,
        None => false,
    }
}

/// Whether a player at `player_pos` stands on ground, and the normal of
/// the ground. Four rays are cast down from around the lower end of the
/// capsule, set off along the horizontal direction of movement, against
/// it and to both sides; the first triangle of the list that one of them
/// reaches within [`GROUNDED_HEIGHT`] is the ground. Without such a
/// triangle the normal is the zero vector.
pub fn grounded_check(
    triangles: &Vec<Triangle>,
    player_pos: Vec3,
    player_move_dir_horz: Option<Vec3>,
) -> (r: (bool, Vec3))
    requires
        player_pos@.within(COORD_MAX as int),
        forall|i: int| 0 <= i < triangles.len() ==> (#[trigger] triangles[i]).wf(),
        match player_move_dir_horz {
            Some(d) => d@.within(SCALE as int),
            None => true,
        },
    ensures
        r.0 == ground_contact(triangles@, player_pos@, view_of(player_move_dir_horz)).0,
        r.1@ == ground_contact(triangles@, player_pos@, view_of(player_move_dir_horz)).1,
{
    let player_shape: PlayerShape = PlayerShape::new(
        player_pos,
        PLAYER_HEIGHT,
        PLAYER_CAPSULE_RADIUS,
    );
    let (velocity_dir, side_dir) = match player_move_dir_horz {
        Some(v) => (v, Vec3 { x: v.z, y: v.y, z: -v.x }),
        None => (Vec3 { x: SCALE, y: 0, z: 0 }, Vec3 { x: 0, y: 0, z: SCALE }),
    };
    proof {
        lemma_probe_offset_within(velocity_dir@);
        lemma_probe_offset_within(side_dir@);
    }
    let center: Vec3 = player_shape.capsule1;
    let forward_offset: Vec3 = velocity_dir.scaled_over(GHOST_RAY_OFFSET, SCALE as i128);
    let side_offset: Vec3 = side_dir.scaled_over(GHOST_RAY_OFFSET, SCALE as i128);
    let origin0: Vec3 = center.plus(forward_offset);
    let origin1: Vec3 = center.minus(forward_offset);
    let origin2: Vec3 = center.plus(side_offset);
    let origin3: Vec3 = center.minus(side_offset);
    let mut i: usize = 0;
    while i < triangles.len()
        invariant
            i <= triangles.len(),
            forall|j: int| 0 <= j < triangles.len() ==> (#[trigger] triangles[j]).wf(),
            origin0@.within(REACH as int),
            origin1@.within(REACH as int),
            origin2@.within(REACH as int),
            origin3@.within(REACH as int),
            center@ == player_capsule(player_pos@).c1,
            probe_directions(view_of(player_move_dir_horz)) == (velocity_dir@, side_dir@),
            origin0@ == center@.plus(probe_offset(velocity_dir@)),
            origin1@ == center@.minus(probe_offset(velocity_dir@)),
            origin2@ == center@.plus(probe_offset(side_dir@)),
            origin3@ == center@.minus(probe_offset(side_dir@)),
            ground_from(triangles@, center@, velocity_dir@, side_dir@, 0) == ground_from(
                triangles@,
                center@,
                velocity_dir@,
                side_dir@,
                i as nat,
            ),
        decreases triangles.len() - i,
    {
        let tri: Triangle = triangles[i];
        if probe_reaches(origin0, tri) || probe_reaches(origin1, tri) || probe_reaches(origin2, tri)
            || probe_reaches(origin3, tri) {
            return (true, tri.normal);
        }
        i += 1;
    }
    (false, Vec3::zero())
}

/// The model of an optional vector.
pub open spec fn view_of(v: Option<Vec3>) -> Option<Int3> {
    match v {
        Some(d) => Some(d@),
        None => None,
    }
}

/// The offset of a probe along a direction no longer than a unit vector
/// stays within [`GHOST_RAY_OFFSET`].
proof fn lemma_probe_offset_within(dir: Int3)
    requires
        dir.within(SCALE as int),
    ensures
        probe_offset(dir).within(GHOST_RAY_OFFSET as int),
{
    lemma_unit_times(dir.x, GHOST_RAY_OFFSET as int);
    lemma_unit_times(dir.y, GHOST_RAY_OFFSET as int);
    lemma_unit_times(dir.z, GHOST_RAY_OFFSET as int);
}

} // verus!

use capsule_collision::geom::{
    is_point_in_triangle, point_triangle_plane_distance, project_point_on_triangle_plane, Triangle,
};
use capsule_collision::vector::Vec3;

/// A point given in world units, brought to raw fixed-point units.
fn point(x: f32, y: f32, z: f32) -> Vec3 {
    Vec3::new(raw(x), raw(y), raw(z))
}

fn raw(v: f32) -> i64 {
    (v as f64 * 1_000_000.0).round() as i64
}

#[test]
fn test_is_point_in_triangle() {
    let tri = Triangle::new(
        point(0.5, -1.0, -1.0),
        point(0.5, -1.0, 1.0),
        point(0.5, 1.0, 0.0),
    );

    assert!(is_point_in_triangle(point(0.5, 0.0, 0.0), tri));
}

#[test]
fn test_is_point_in_triangle_2() {
    let tri = Triangle::new(
        point(-29.0, -1.0, -29.0),
        point(29.0, -1.0, 29.0),
        point(-29.0, -1.0, 29.0),
    );

    assert!(!is_point_in_triangle(point(-53.0, -1.0, 0.0), tri));
}

#[test]
fn test_is_point_in_triangle_3() {
    let tri = Triangle::new(
        point(-29.0, 1.0, 29.0),
        point(29.0, 1.0, -29.0),
        point(29.0, 1.0, 29.0),
    );

    assert!(is_point_in_triangle(point(19.815203, 1.0, 0.4436245), tri));
}

#[test]
fn test_project_point_on_triangle_plane() {
    let p = point(0.0, -0.5, 0.0);
    let tri = Triangle::new(
        point(1.0, -0.25, 0.0),
        point(0.0, -0.25, -1.0),
        point(-1.0, -0.25, 0.0),
    );

    assert_eq!(
        project_point_on_triangle_plane(p, tri),
        point(0.0, -0.25, 0.0)
    );
}

#[test]
fn test_project_point_on_triangle_plane_2() {
    let p = point(0.0, -1.49, 0.0);
    let tri = Triangle::new(
        point(-29.0, -1.0, 29.0),
        point(29.0, -1.0, -29.0),
        point(29.0, -1.0, 29.0),
    );
    assert_eq!(
        project_point_on_triangle_plane(p, tri),
        point(0.0, -1.0, 0.0)
    );
}

#[test]
fn plane_distance_is_measured_along_the_normal() {
    let tri = Triangle::new(
        point(1.0, -0.25, 0.0),
        point(0.0, -0.25, -1.0),
        point(-1.0, -0.25, 0.0),
    );
    assert_eq!(tri.normal, Vec3::new(0, 1_000_000, 0));
    assert_eq!(point_triangle_plane_distance(point(3.0, 0.5, -7.0), tri), 750_000);
    assert_eq!(point_triangle_plane_distance(point(3.0, -1.0, -7.0), tri), 750_000);
}

use capsule_collision::geom::{
    distance_between, get_closest_point_on_line_segment, get_closest_point_on_triangle, horz_norm,
    is_projection_on_line_segment, midpoint, point_triangle_plane_offset,
    point_triangle_plane_side, project_vector_on_plane, ray_triangle_check, Matrix4, Vec4,
};

/// One large triangle at height zero whose normal points up.
fn floor() -> Triangle {
    Triangle::new(
        point(-400.0, 0.0, -400.0),
        point(0.0, 0.0, 400.0),
        point(400.0, 0.0, -400.0),
    )
}

/// A triangle that rises along `x`: its plane is `y = x / 2`.
fn slope() -> Triangle {
    Triangle::new(
        point(0.0, 0.0, 0.0),
        point(0.0, 0.0, 4.0),
        point(4.0, 2.0, 0.0),
    )
}

#[test]
fn triangle_holds_normal_and_area() {
    let tri = Triangle::new(point(0.0, 0.0, 0.0), point(2.0, 0.0, 0.0), point(0.0, 0.0, 2.0));
    assert_eq!(tri.p0, point(0.0, 0.0, 0.0));
    assert_eq!(tri.p1, point(2.0, 0.0, 0.0));
    assert_eq!(tri.p2, point(0.0, 0.0, 2.0));
    assert_eq!(tri.normal, Vec3::new(0, -1_000_000, 0));
    assert_eq!(tri.area, 2_000_000);
    assert!(tri.is_well_formed());
    let other = Triangle::new(point(0.0, 0.0, 0.0), point(0.0, 0.0, 2.0), point(2.0, 0.0, 0.0));
    assert_eq!(other.normal, Vec3::new(0, 1_000_000, 0));
    let tilted = slope();
    assert_eq!(tilted.normal, Vec3::new(-447_213, 894_427, 0));
    assert!(tilted.is_well_formed());
}

#[test]
fn degenerate_triangle_is_not_well_formed() {
    let line = Triangle::new(point(0.0, 0.0, 0.0), point(1.0, 1.0, 1.0), point(2.0, 2.0, 2.0));
    assert_eq!(line.normal, Vec3::new(0, 0, 0));
    assert_eq!(line.area, 0);
    assert!(!line.is_well_formed());
    let dot = Triangle::new(point(1.0, 1.0, 1.0), point(1.0, 1.0, 1.0), point(1.0, 1.0, 1.0));
    assert!(!dot.is_well_formed());
    let mut far = floor();
    far.p0 = Vec3::new(500_000_001, 0, 0);
    assert!(!far.is_well_formed());
    let mut long = floor();
    long.normal = Vec3::new(0, 1_000_004, 0);
    assert!(!long.is_well_formed());
    long.normal = Vec3::new(0, 1_000_002, 0);
    assert!(long.is_well_formed());
    long.normal = Vec3::new(0, 999_996, 0);
    assert!(!long.is_well_formed());
}

#[test]
fn plane_side_and_offset_follow_the_normal() {
    let tri = floor();
    assert!(point_triangle_plane_side(point(0.0, 0.5, 0.0), tri));
    assert!(!point_triangle_plane_side(point(0.0, 0.0, 0.0), tri));
    assert!(!point_triangle_plane_side(point(0.0, -0.5, 0.0), tri));
    assert_eq!(point_triangle_plane_offset(point(7.0, 0.5, 9.0), tri), 500_000_000_000);
    assert_eq!(point_triangle_plane_offset(point(7.0, -0.5, 9.0), tri), -500_000_000_000);
}

#[test]
fn projection_lands_on_a_tilted_plane() {
    let tri = slope();
    let p = point(1.0, 3.0, 1.0);
    let q = project_point_on_triangle_plane(p, tri);
    assert_eq!(point_triangle_plane_distance(p, tri), 2_236_068);
    assert_eq!(q, Vec3::new(1_999_998, 1_000_001, 1_000_000));
    assert!(point_triangle_plane_distance(q, tri) <= 100);
    let below = point(2.0, -4.0, 1.0);
    let r = project_point_on_triangle_plane(below, tri);
    assert!(point_triangle_plane_distance(r, tri) <= 100);
    assert!(r.y > below.y);
}

#[test]
fn triangle_holds_its_vertices_edges_and_centroid() {
    let tri = Triangle::new(point(0.0, 1.0, 0.0), point(0.0, 1.0, 3.0), point(3.0, 1.0, 0.0));
    assert!(is_point_in_triangle(tri.p0, tri));
    assert!(is_point_in_triangle(tri.p1, tri));
    assert!(is_point_in_triangle(tri.p2, tri));
    assert!(is_point_in_triangle(point(1.0, 1.0, 1.0), tri));
    assert!(is_point_in_triangle(point(0.0, 1.0, 1.5), tri));
    assert!(is_point_in_triangle(point(1.5, 1.0, 1.5), tri));
    assert!(!is_point_in_triangle(Vec3::new(1_500_001, 1_000_000, 1_500_000), tri));
    assert!(!is_point_in_triangle(Vec3::new(-1, 1_000_000, 1_500_000), tri));
    assert!(!is_point_in_triangle(point(1.0, 1.0, -0.5), tri));
    // Off the plane by less than the tolerance: judged by its projection.
    assert!(is_point_in_triangle(Vec3::new(1_000_000, 1_000_100, 1_000_000), tri));
    let tilted = slope();
    for vertex in [tilted.p0, tilted.p1, tilted.p2] {
        assert!(point_triangle_plane_distance(vertex, tilted) <= 100);
        assert!(is_point_in_triangle(vertex, tilted));
    }
    let degenerate = Triangle {
        p0: point(0.0, 0.0, 0.0),
        p1: point(1.0, 0.0, 0.0),
        p2: point(2.0, 0.0, 0.0),
        normal: Vec3::new(0, 1_000_000, 0),
        area: 0,
    };
    assert!(!is_point_in_triangle(point(1.0, 0.0, 0.0), degenerate));
}

#[test]
fn triangle_moved_or_turned_with_its_point_answers_the_same() {
    let vertices = [point(0.0, 1.0, 0.0), point(0.0, 1.0, 3.0), point(3.0, 1.0, 0.0)];
    let probes = [
        point(1.0, 1.0, 1.0),
        point(2.0, 1.0, 2.0),
        point(-1.0, 1.0, 1.0),
        point(3.0, 1.0, 0.0),
        point(0.5, 1.0, 2.5),
    ];
    let shift = Vec3::new(-7_123_456, 11_000_001, 3_333_333);
    let turn = |v: Vec3| Vec3::new(v.z, v.y, -v.x);
    let tip = |v: Vec3| Vec3::new(v.x, -v.z, v.y);
    let tri = Triangle::new(vertices[0], vertices[1], vertices[2]);
    let moved = Triangle::new(
        vertices[0].plus(shift),
        vertices[1].plus(shift),
        vertices[2].plus(shift),
    );
    let turned = Triangle::new(turn(vertices[0]), turn(vertices[1]), turn(vertices[2]));
    let tipped = Triangle::new(tip(vertices[0]), tip(vertices[1]), tip(vertices[2]));
    for probe in probes {
        let expected = is_point_in_triangle(probe, tri);
        assert_eq!(is_point_in_triangle(probe.plus(shift), moved), expected);
        assert_eq!(is_point_in_triangle(turn(probe), turned), expected);
        assert_eq!(is_point_in_triangle(tip(probe), tipped), expected);
    }
}

#[test]
fn closest_point_on_segment_is_foot_or_nearer_end() {
    let a = point(-1.0, 0.0, 0.0);
    let b = point(1.0, 0.0, 0.0);
    assert_eq!(
        get_closest_point_on_line_segment(point(0.0, 1.0, 0.0), a, b),
        (point(0.0, 0.0, 0.0), 1_000_000)
    );
    assert_eq!(
        get_closest_point_on_line_segment(point(0.25, 0.0, -3.0), a, b),
        (point(0.25, 0.0, 0.0), 3_000_000)
    );
    assert_eq!(
        get_closest_point_on_line_segment(point(5.0, 0.0, 0.0), a, b),
        (b, 4_000_000)
    );
    assert_eq!(
        get_closest_point_on_line_segment(point(-3.0, 4.0, 0.0), a, b),
        (a, 4_472_135)
    );
    // Right over an end: the foot is not strictly inside.
    assert_eq!(
        get_closest_point_on_line_segment(point(-1.0, 2.0, 0.0), a, b),
        (a, 2_000_000)
    );
    assert_eq!(
        get_closest_point_on_line_segment(point(1.0, 2.0, 0.0), a, b),
        (b, 2_000_000)
    );
    // Both ends equally near: the second.
    assert_eq!(get_closest_point_on_line_segment(point(0.0, 2.0, 0.0), a, a), (a, 2_236_067));
    assert!(is_projection_on_line_segment(point(0.0, 1.0, 0.0), a, b));
    assert!(is_projection_on_line_segment(Vec3::new(999_999, 5, 5), a, b));
    assert!(!is_projection_on_line_segment(point(1.0, 1.0, 0.0), a, b));
    assert!(!is_projection_on_line_segment(point(-1.0, 1.0, 0.0), a, b));
    assert!(!is_projection_on_line_segment(point(0.0, 1.0, 0.0), a, a));
    assert_eq!(distance_between(point(0.0, 3.0, 0.0), point(4.0, 0.0, 0.0)), 5_000_000);
}

#[test]
fn closest_point_projected_again_keeps_its_distance() {
    let a = point(-1.0, 0.0, 0.0);
    let b = point(1.0, 0.0, 0.0);
    for p in [point(0.3, 1.0, 0.0), point(5.0, 2.0, 1.0), point(-4.0, 0.0, 0.0)] {
        let (q, d) = get_closest_point_on_line_segment(p, a, b);
        assert_eq!(distance_between(p, q), d);
        let (again, rest) = get_closest_point_on_line_segment(q, a, b);
        assert_eq!(again, q);
        assert_eq!(rest, 0);
        assert_eq!(distance_between(p, again), d);
    }
    // On a slanted segment the foot is rounded to whole raw units, and
    // projecting it again may move it by a unit.
    let a = Vec3::new(-3, 5, -1);
    let b = Vec3::new(-4, 0, 3);
    let p = Vec3::new(1, 3, 5);
    let (q, d) = get_closest_point_on_line_segment(p, a, b);
    assert_eq!((q, d), (Vec3::new(-3, 2, 1), 5));
    let (again, rest) = get_closest_point_on_line_segment(q, a, b);
    assert_eq!((again, rest), (Vec3::new(-3, 3, 1), 1));
    assert!(again.minus(q).is_within(2));
}

#[test]
fn closest_point_on_triangle_is_on_the_nearest_edge() {
    let tri = Triangle::new(point(0.0, 0.0, 0.0), point(0.0, 0.0, 4.0), point(4.0, 0.0, 0.0));
    assert_eq!(
        get_closest_point_on_triangle(point(-1.0, 0.0, 1.0), tri),
        (point(0.0, 0.0, 1.0), 1_000_000)
    );
    assert_eq!(
        get_closest_point_on_triangle(point(1.0, 0.0, -2.0), tri),
        (point(1.0, 0.0, 0.0), 2_000_000)
    );
    assert_eq!(
        get_closest_point_on_triangle(point(3.0, 0.0, 3.0), tri),
        (point(2.0, 0.0, 2.0), 1_414_213)
    );
    // The corner belongs to two edges: the first in the order of the
    // edges answers.
    assert_eq!(
        get_closest_point_on_triangle(point(-1.0, 0.0, -1.0), tri),
        (point(0.0, 0.0, 0.0), 1_414_213)
    );
    // Inside the triangle the nearest edge still answers.
    assert_eq!(
        get_closest_point_on_triangle(point(0.5, 0.0, 1.0), tri),
        (point(0.0, 0.0, 1.0), 500_000)
    );
}

#[test]
fn ray_hits_the_triangle_in_front_of_it() {
    let tri = floor();
    let down = Vec3::new(0, -1_000_000, 0);
    let up = Vec3::new(0, 1_000_000, 0);
    assert_eq!(ray_triangle_check(point(0.0, 2.0, -2.0), down, tri), Some(2_000_000));
    assert_eq!(ray_triangle_check(point(0.0, 0.0, -2.0), down, tri), Some(0));
    assert_eq!(ray_triangle_check(point(0.0, -1.0, -2.0), down, tri), None);
    assert_eq!(ray_triangle_check(point(0.0, -1.0, -2.0), up, tri), Some(1_000_000));
    assert_eq!(ray_triangle_check(point(0.0, 2.0, -2.0), up, tri), None);
    assert_eq!(ray_triangle_check(point(450.0, 2.0, 450.0), down, tri), None);
    assert_eq!(
        ray_triangle_check(point(0.0, 2.0, -2.0), Vec3::new(1_000_000, 0, 0), tri),
        None
    );
    // Nearly along the plane.
    assert_eq!(
        ray_triangle_check(point(0.0, 2.0, -2.0), Vec3::new(1_000_000, -99, 0), tri),
        None
    );
    assert_eq!(
        ray_triangle_check(point(0.0, 0.001, -2.0), Vec3::new(1_000_000, -100, 0), tri),
        Some(10_000_000)
    );
    // A slanted ray: two units down at one unit sideways per unit down.
    assert_eq!(
        ray_triangle_check(point(0.0, 2.0, -2.0), Vec3::new(500_000, -500_000, 0), tri),
        Some(4_000_000)
    );
    // The hit would lie outside of what the machine holds.
    assert_eq!(
        ray_triangle_check(point(0.0, 500.0, 0.0), Vec3::new(16_000_000, -100, 0), tri),
        None
    );
}

#[test]
fn midpoint_halves_towards_the_first_point() {
    assert_eq!(midpoint(point(0.0, 0.0, 0.0), point(2.0, -4.0, 1.0)), point(1.0, -2.0, 0.5));
    assert_eq!(midpoint(Vec3::new(0, 0, 0), Vec3::new(3, -3, 1)), Vec3::new(1, -1, 0));
    assert_eq!(midpoint(Vec3::new(3, -3, 1), Vec3::new(0, 0, 0)), Vec3::new(2, -2, 1));
}

#[test]
fn vector_on_plane_loses_its_part_along_the_normal() {
    let v = point(1.0, -2.0, 3.0);
    assert_eq!(project_vector_on_plane(v, Vec3::new(0, 1_000_000, 0)), point(1.0, 0.0, 3.0));
    assert_eq!(project_vector_on_plane(v, Vec3::new(0, 5_000_000, 0)), point(1.0, 0.0, 3.0));
    assert_eq!(project_vector_on_plane(v, Vec3::new(0, 10_000, 0)), point(1.0, 0.0, 3.0));
    // A normal too short to define a plane leaves the vector as it is.
    assert_eq!(project_vector_on_plane(v, Vec3::new(0, 9_999, 0)), v);
    assert_eq!(project_vector_on_plane(v, Vec3::new(0, 0, 0)), v);
    assert_eq!(
        project_vector_on_plane(point(1.0, 0.0, 0.0), Vec3::new(600_000, 800_000, 0)),
        Vec3::new(640_000, -480_000, 0)
    );
}

#[test]
fn horz_norm_keeps_the_horizontal_direction() {
    assert_eq!(horz_norm(&point(3.0, 7.0, 4.0)), Some(Vec3::new(600_000, 0, 800_000)));
    assert_eq!(horz_norm(&point(0.0, 5.0, 0.0)), None);
    assert_eq!(horz_norm(&point(0.0, 0.0, 0.0)), None);
    assert_eq!(horz_norm(&Vec3::new(3_000, 0, 1_000)), Some(Vec3::new(948_683, 0, 316_227)));
    assert_eq!(horz_norm(&Vec3::new(3_000, 0, 999)), None);
    assert_eq!(horz_norm(&point(0.0, 0.0, -1.0)), Some(Vec3::new(0, 0, -1_000_000)));
}

#[test]
fn matrix_moves_points() {
    let m = Matrix4::from_translation(point(1.0, 2.0, 3.0));
    assert_eq!(m.weight_of(point(5.0, 5.0, 5.0)), 1_000_000);
    assert_eq!(m.transform_point(point(5.0, -5.0, 0.5)), point(6.0, -3.0, 3.5));
    assert_eq!(Matrix4::identity(), Matrix4::from_translation(Vec3::new(0, 0, 0)));
    assert_eq!(Matrix4::identity().transform_point(point(5.0, -5.0, 0.5)), point(5.0, -5.0, 0.5));
    // Twice as large, by a weight of one half.
    let half = Matrix4 {
        x: Vec4 { x: 1_000_000, y: 0, z: 0, w: 0 },
        y: Vec4 { x: 0, y: 1_000_000, z: 0, w: 0 },
        z: Vec4 { x: 0, y: 0, z: 1_000_000, w: 0 },
        w: Vec4 { x: 0, y: 0, z: 0, w: 500_000 },
    };
    assert_eq!(half.weight_of(point(1.0, 2.0, 3.0)), 500_000);
    assert_eq!(half.transform_point(point(1.0, -2.0, 3.0)), point(2.0, -4.0, 6.0));
    let mirror = Matrix4 { w: Vec4 { x: 0, y: 0, z: 0, w: -1_000_000 }, ..half };
    assert_eq!(mirror.transform_point(point(1.0, -2.0, 3.0)), point(-1.0, 2.0, -3.0));
}

#[test]
fn transformed_triangle_keeps_normal_and_area() {
    let tri = Triangle::new(point(0.0, 0.0, 0.0), point(0.0, 0.0, 2.0), point(2.0, 0.0, 0.0));
    let moved = tri.transformed_by(Matrix4::from_translation(point(10.0, 1.0, -3.0)));
    assert_eq!(moved.p0, point(10.0, 1.0, -3.0));
    assert_eq!(moved.p1, point(10.0, 1.0, -1.0));
    assert_eq!(moved.p2, point(12.0, 1.0, -3.0));
    assert_eq!(moved.normal, tri.normal);
    assert_eq!(moved.area, tri.area);
    assert!(moved.is_well_formed());
    // A quarter turn about the z axis: the vertices turn, the normal is
    // still that of the triangle as it was.
    let turn = Matrix4 {
        x: Vec4 { x: 0, y: 1_000_000, z: 0, w: 0 },
        y: Vec4 { x: -1_000_000, y: 0, z: 0, w: 0 },
        z: Vec4 { x: 0, y: 0, z: 1_000_000, w: 0 },
        w: Vec4 { x: 0, y: 0, z: 0, w: 1_000_000 },
    };
    let turned = tri.transformed_by(turn);
    assert_eq!(turned.p0, point(0.0, 0.0, 0.0));
    assert_eq!(turned.p1, point(0.0, 0.0, 2.0));
    assert_eq!(turned.p2, point(0.0, 2.0, 0.0));
    assert_eq!(turned.normal, Vec3::new(0, 1_000_000, 0));
    assert_eq!(
        Triangle::new(turned.p0, turned.p1, turned.p2).normal,
        Vec3::new(-1_000_000, 0, 0)
    );
}

use capsule_collision::geom::Triangle;
use capsule_collision::physics::{
    compute_penetration, PlayerShape, PLAYER_CAPSULE_RADIUS, PLAYER_HEIGHT,
};
use capsule_collision::vector::Vec3;

/// A point given in world units, brought to raw fixed-point units.
fn point(x: f32, y: f32, z: f32) -> Vec3 {
    Vec3::new(raw(x), raw(y), raw(z))
}

fn raw(v: f32) -> i64 {
    (v as f64 * 1_000_000.0).round() as i64
}

fn setup_player_shape_at_zero() -> PlayerShape {
    PlayerShape::new(point(0.0, 0.0, 0.0), PLAYER_HEIGHT, PLAYER_CAPSULE_RADIUS)
}

fn setup_player_shape(a: f32, b: f32, c: f32) -> PlayerShape {
    PlayerShape::new(point(a, b, c), PLAYER_HEIGHT, PLAYER_CAPSULE_RADIUS)
}

#[test]
fn test_resolve() {
    let player_shape =
        PlayerShape::with_capsule_points(point(0.0, 0.5, 0.0), point(0.0, -0.5, 0.0), raw(0.5));

    let tri = Triangle::new(
        point(1.0, -0.25, 0.0),
        point(0.0, -0.25, -1.0),
        point(-1.0, -0.25, 0.0),
    );

    assert_eq!(
        compute_penetration(player_shape, tri),
        Some(point(0.0, 0.75, 0.0))
    );
}

#[test]
fn test_resolve_2() {
    let player_shape =
        PlayerShape::with_capsule_points(point(0.0, 1.47, 0.0), point(0.0, 0.47, 0.0), raw(0.5));

    let tri = Triangle::new(
        point(29.0, 1.0, -29.0),
        point(-29.0, 1.0, -29.0),
        point(-29.0, 1.0, 29.0),
    );

    assert_eq!(
        compute_penetration(player_shape, tri),
        Some(point(0.0, 0.97, 0.0))
    );
}

#[test]
fn test_resolve_3() {
    let player_shape =
        PlayerShape::with_capsule_points(point(0.0, 1.92, 0.0), point(0.0, 0.92, 0.0), raw(0.5));

    let tri = Triangle::new(
        point(29.0, 1.0, -29.0),
        point(-29.0, 1.0, -29.0),
        point(-29.0, 1.0, 29.0),
    );

    assert_eq!(
        compute_penetration(player_shape, tri),
        Some(point(0.0, 1.0 - 0.92 + 0.5, 0.0))
    );
}

#[test]
fn test_resolve_4() {
    let player_shape = setup_player_shape(-9.58, 1.43, -20.92);

    let tri = Triangle::new(
        point(-10.0, 3.0, -30.0),
        point(-10.0, 3.0, -20.0),
        point(-10.0, 0.0, -20.0),
    );

    assert_eq!(
        compute_penetration(player_shape, tri),
        Some(point(0.07999992, 0.0, 0.0))
    );
}

#[test]
fn test_resolve_5() {
    let player_shape = setup_player_shape(-9.64, 1.47, -23.93);

    let tri = Triangle::new(
        point(-10.0, 3.0, -30.0),
        point(-10.0, 0.0, -20.0),
        point(-10.0, 0.0, -30.0),
    );

    assert_eq!(
        compute_penetration(player_shape, tri),
        Some(point(0.14000034, 0.0, 0.0))
    );
}

#[test]
fn test_resolve_6() {
    let player_shape = setup_player_shape(-9.7, 1.56, -23.49);

    let tri = Triangle::new(
        point(-10.0, 3.0, -30.0),
        point(-10.0, 0.0, -20.0),
        point(-10.0, 0.0, -30.0),
    );

    assert_eq!(
        compute_penetration(player_shape, tri),
        Some(point(0.19999981, 0.0, 0.0))
    );
}

#[test]
fn test_resolve_7() {
    let player_shape = setup_player_shape(19.51, 1.0, -2.0);

    let tri = Triangle::new(
        point(20.0, 1.0, -10.0),
        point(20.0, 1.0, 0.0),
        point(30.0, 1.0, -10.0),
    );

    assert_eq!(
        compute_penetration(player_shape, tri),
        Some(point(-0.010000229, 0.0, 0.0))
    );
}

#[test]
fn test_resolve_8() {
    let player_shape = setup_player_shape(9.5, 1.4914774, 5.7156773);

    let tri = Triangle::new(
        point(10.0, 1.0, 0.0),
        point(10.0, 0.0, 0.0),
        point(10.0, 1.0, 10.0),
    );

    assert_eq!(compute_penetration(player_shape, tri), None);
}

#[test]
fn test_resolve_no_collision() {
    let player_shape = setup_player_shape_at_zero();

    let tri = Triangle::new(
        point(10.0, 0.0, 0.0),
        point(9.0, 0.0, -1.0),
        point(8.0, 0.0, 0.0),
    );

    assert_eq!(compute_penetration(player_shape, tri), None);
}

#[test]
fn test_resolve_no_collision_2() {
    let player_shape = setup_player_shape_at_zero();

    let tri = Triangle::new(
        point(1.0, 1.25, 0.0),
        point(0.0, 1.25, -1.0),
        point(-1.0, 1.25, 0.0),
    );

    assert_eq!(compute_penetration(player_shape, tri), None);
}

#[test]
fn test_resolve_no_collision_3() {
    let player_shape = setup_player_shape(-3.848164, 6.019497, -30.203638);

    let tri = Triangle::new(
        point(0.0, 5.0, -30.0),
        point(-10.0, 5.0, -30.0),
        point(0.0, 0.0, -20.0),
    );

    assert_eq!(compute_penetration(player_shape, tri), None);
}

#[test]
fn test_resolve_no_collision_with_floor() {
    let player_shape = setup_player_shape(-0.5, 1.01, -9.67);

    let tri = Triangle::new(
        point(-10.0, 0.0, -10.0),
        point(0.0, 0.0, -10.0),
        point(-10.0, 0.0, -20.0),
    );

    assert_eq!(compute_penetration(player_shape, tri), None);
}

use capsule_collision::physics::{grounded_check, nudge, resolve_penetration};

fn world(x: f64, y: f64, z: f64) -> Vec3 {
    Vec3::new(
        (x * 1_000_000.0).round() as i64,
        (y * 1_000_000.0).round() as i64,
        (z * 1_000_000.0).round() as i64,
    )
}

/// A large horizontal triangle at the height `y` whose normal points up.
fn floor_at(y: f64) -> Triangle {
    Triangle::new(world(-400.0, y, -400.0), world(0.0, y, 400.0), world(400.0, y, -400.0))
}

/// A large vertical triangle in the plane `x = x0` whose normal points
/// towards smaller `x`.
fn wall_at(x: f64) -> Triangle {
    Triangle::new(world(x, -50.0, -50.0), world(x, -50.0, 150.0), world(x, 150.0, -50.0))
}

#[test]
fn capsule_is_built_around_its_centre() {
    let shape = PlayerShape::new(world(1.0, 2.0, 3.0), 1_000_000, 500_000);
    assert_eq!(shape.capsule0, world(1.0, 2.5, 3.0));
    assert_eq!(shape.capsule1, world(1.0, 1.5, 3.0));
    assert_eq!(shape.tip0, world(1.0, 3.0, 3.0));
    assert_eq!(shape.tip1, world(1.0, 1.0, 3.0));
    assert_eq!(shape.radius, 500_000);
    let odd = PlayerShape::new(world(0.0, 0.0, 0.0), 3, 1);
    assert_eq!(odd.capsule0, Vec3::new(0, 1, 0));
    assert_eq!(odd.capsule1, Vec3::new(0, -1, 0));
    assert_eq!(odd.tip0, Vec3::new(0, 2, 0));
    assert_eq!(odd.tip1, Vec3::new(0, -2, 0));
    let given = PlayerShape::with_capsule_points(world(1.0, 2.0, 0.0), world(0.0, 1.0, 0.0), 250_000);
    assert_eq!(given.capsule0, world(1.0, 2.0, 0.0));
    assert_eq!(given.capsule1, world(0.0, 1.0, 0.0));
    assert_eq!(given.tip0, world(1.0, 2.25, 0.0));
    assert_eq!(given.tip1, world(0.0, 0.75, 0.0));
    assert_eq!(PLAYER_HEIGHT, 1_000_000);
    assert_eq!(PLAYER_CAPSULE_RADIUS, 500_000);
}

#[test]
fn displace_moves_all_points_together() {
    let mut shape = setup_player_shape(1.0, 2.0, 3.0);
    shape.displace(world(-1.0, 0.5, 2.0));
    assert_eq!(shape.capsule0, world(0.0, 3.0, 5.0));
    assert_eq!(shape.capsule1, world(0.0, 2.0, 5.0));
    assert_eq!(shape.tip0, world(0.0, 3.5, 5.0));
    assert_eq!(shape.tip1, world(0.0, 1.5, 5.0));
    assert_eq!(shape.radius, 500_000);
    assert!(shape.can_displace(world(999.0, 0.0, 0.0)));
    assert!(shape.can_displace(world(1000.0, 0.0, 0.0)));
    assert!(!shape.can_displace(world(1000.000001, 0.0, 0.0)));
    assert!(!shape.can_displace(world(0.0, 997.000001, 0.0)));
    assert!(shape.can_displace(world(0.0, 997.0, 0.0)));
    assert!(!shape.can_displace(world(0.0, -1002.000001, 0.0)));
}

#[test]
fn capsule_behind_a_triangle_is_not_pushed() {
    let floor = floor_at(0.0);
    let above = setup_player_shape(0.0, 1.0, 0.0);
    let across = setup_player_shape(0.0, 0.0, 0.0);
    let touching = setup_player_shape(0.0, -0.5, 0.0);
    let below = setup_player_shape(0.0, -0.6, 0.0);
    assert!(!above.is_behind_triangle(&floor));
    assert!(!across.is_behind_triangle(&floor));
    assert!(!touching.is_behind_triangle(&floor));
    assert!(below.is_behind_triangle(&floor));
    assert_eq!(compute_penetration(below, floor), None);
    // With its upper end in the plane the capsule is pushed all the way
    // up.
    assert_eq!(compute_penetration(touching, floor), Some(world(0.0, 0.5, 0.0)));
}

#[test]
fn capsule_farther_from_the_plane_than_its_radius_is_not_pushed() {
    let floor = floor_at(0.0);
    assert_eq!(compute_penetration(setup_player_shape(0.0, 1.000001, 0.0), floor), None);
    assert_eq!(compute_penetration(setup_player_shape(0.0, 1.0, 0.0), floor), Some(world(0.0, 0.0, 0.0)));
    assert_eq!(
        compute_penetration(setup_player_shape(0.0, 0.999999, 0.0), floor),
        Some(Vec3::new(0, 1, 0))
    );
    assert_eq!(compute_penetration(setup_player_shape(0.0, 7.0, 0.0), floor), None);
}

#[test]
fn wall_pushes_along_its_normal() {
    let wall = wall_at(0.4);
    assert_eq!(wall.normal, Vec3::new(-1_000_000, 0, 0));
    assert_eq!(
        compute_penetration(setup_player_shape(0.0, 0.9, 0.0), wall),
        Some(world(-0.1, 0.0, 0.0))
    );
    assert_eq!(compute_penetration(setup_player_shape(-0.1, 0.9, 0.0), wall), Some(world(0.0, 0.0, 0.0)));
    assert_eq!(compute_penetration(setup_player_shape(-0.2, 0.9, 0.0), wall), None);
    assert_eq!(compute_penetration(setup_player_shape(0.5, 0.9, 0.0), wall), None);
}

#[test]
fn edge_pushes_away_from_the_boundary() {
    // A ledge whose rim runs along z at x = 0, at the height of the
    // middle of the capsule.
    let ledge = Triangle::new(world(0.0, 1.0, -10.0), world(0.0, 1.0, 10.0), world(10.0, 1.0, 0.0));
    assert_eq!(ledge.normal, Vec3::new(0, 1_000_000, 0));
    assert_eq!(
        compute_penetration(setup_player_shape(-0.3, 1.0, 0.0), ledge),
        Some(world(-0.2, 0.0, 0.0))
    );
    assert_eq!(compute_penetration(setup_player_shape(-0.5, 1.0, 0.0), ledge), None);
    assert_eq!(
        compute_penetration(setup_player_shape(-0.499999, 1.0, 0.0), ledge),
        Some(Vec3::new(-1, 0, 0))
    );
    // Above the rim: the lower end of the capsule's segment faces the
    // boundary, and the distances along and across the plane add up.
    assert_eq!(compute_penetration(setup_player_shape(-0.3, 1.8, 0.0), ledge), Some(world(-0.2, 0.0, 0.0)));
    assert_eq!(compute_penetration(setup_player_shape(-0.3, 1.9, 0.0), ledge), None);
    assert_eq!(compute_penetration(setup_player_shape(-0.4, 1.8, 0.0), ledge), None);
}

#[test]
fn nudge_moves_the_vertical_part_away_from_zero() {
    assert_eq!(nudge(Vec3::new(5, 7, -9)), Vec3::new(5, 107, -9));
    assert_eq!(nudge(Vec3::new(5, -7, -9)), Vec3::new(5, -107, -9));
    assert_eq!(nudge(Vec3::new(5, 0, -9)), Vec3::new(5, 0, -9));
}

#[test]
fn triangles_push_one_after_the_other() {
    let floor = floor_at(0.0);
    let wall = wall_at(0.4);
    let pos = world(0.0, 0.9, 0.0);
    assert_eq!(resolve_penetration(&vec![floor], pos), Vec3::new(0, 100_100, 0));
    // The second floor finds the capsule already lifted.
    assert_eq!(resolve_penetration(&vec![floor, floor], pos), Vec3::new(0, 100_100, 0));
    assert_eq!(resolve_penetration(&vec![wall], pos), Vec3::new(-100_000, 0, 0));
    assert_eq!(resolve_penetration(&vec![floor, wall], pos), Vec3::new(-100_000, 100_100, 0));
    assert_eq!(resolve_penetration(&vec![wall, floor], pos), Vec3::new(-100_000, 100_100, 0));
    assert_eq!(resolve_penetration(&vec![wall, floor, wall, floor], pos), Vec3::new(-100_000, 100_100, 0));
    // A lower floor after a higher one adds nothing; a higher floor after
    // a lower one adds what is left.
    let step = floor_at(0.05);
    assert_eq!(resolve_penetration(&vec![step, floor], pos), Vec3::new(0, 150_100, 0));
    assert_eq!(resolve_penetration(&vec![floor, step], pos), Vec3::new(0, 150_100, 0));
    assert_eq!(resolve_penetration(&vec![floor_at(-3.0), wall_at(7.0)], pos), Vec3::new(0, 0, 0));
}

#[test]
fn triangles_at_the_rim_of_the_world_push_too() {
    let pos = world(0.0, 500.0, 0.0);
    let ceiling = Triangle::new(
        world(-400.0, 500.0, -400.0),
        world(0.0, 500.0, 400.0),
        world(400.0, 500.0, -400.0),
    );
    assert_eq!(resolve_penetration(&vec![ceiling], pos), Vec3::new(0, 500_100, 0));
    let corner = world(500.0, -500.0, 500.0);
    let wall = Triangle::new(
        world(500.0, -500.0, 400.0),
        world(500.0, -500.0, 500.0),
        world(500.0, -400.0, 500.0),
    );
    assert_eq!(wall.normal, Vec3::new(-1_000_000, 0, 0));
    assert_eq!(resolve_penetration(&vec![wall], corner), Vec3::new(-500_000, 0, 0));
}

#[test]
fn probes_follow_the_direction_of_movement() {
    // A small patch under the probe that is set off along the movement.
    let patch = Triangle::new(world(0.2, 0.0, 0.35), world(0.3, 0.0, 0.5), world(0.4, 0.0, 0.35));
    assert_eq!(patch.normal, Vec3::new(0, 1_000_000, 0));
    let triangles = vec![patch];
    let pos = world(0.0, 1.0, 0.0);
    let along = Vec3::new(600_000, 0, 800_000);
    assert_eq!(grounded_check(&triangles, pos, Some(along)), (true, patch.normal));
    assert_eq!(grounded_check(&triangles, pos, Some(along.negated())), (true, patch.normal));
    // Across the movement: a quarter turn about the vertical axis.
    let across = Vec3::new(-800_000, 0, 600_000);
    assert_eq!(grounded_check(&triangles, pos, Some(across)), (true, patch.normal));
    assert_eq!(grounded_check(&triangles, pos, None), (false, Vec3::new(0, 0, 0)));
    assert_eq!(
        grounded_check(&triangles, pos, Some(Vec3::new(1_000_000, 0, 0))),
        (false, Vec3::new(0, 0, 0))
    );
    // Without a direction the probes lie along the axes of the world.
    let east = Triangle::new(world(0.4, 0.0, -0.1), world(0.4, 0.0, 0.1), world(0.6, 0.0, 0.0));
    assert_eq!(grounded_check(&vec![east], pos, None), (true, east.normal));
    assert_eq!(grounded_check(&vec![east], world(0.02, 1.0, 0.0), None), (true, east.normal));
    assert_eq!(grounded_check(&vec![east], world(0.2, 1.0, 0.0), None), (false, Vec3::new(0, 0, 0)));
}

#[test]
fn first_triangle_under_a_probe_is_the_ground() {
    let flat = floor_at(0.0);
    let tilted = Triangle::new(world(-40.0, -4.0, -40.0), world(0.0, 0.0, 40.0), world(40.0, 4.0, -40.0));
    assert!(tilted.is_well_formed());
    let pos = world(0.0, 1.0, 0.0);
    assert_eq!(grounded_check(&vec![flat, tilted], pos, None), (true, flat.normal));
    assert_eq!(grounded_check(&vec![tilted, flat], pos, None), (true, tilted.normal));
    assert_eq!(grounded_check(&vec![floor_at(-2.0), tilted, flat], pos, None), (true, tilted.normal));
    assert_eq!(grounded_check(&Vec::new(), pos, None), (false, Vec3::new(0, 0, 0)));
    // Ground above the lower end of the capsule does not carry.
    assert_eq!(grounded_check(&vec![floor_at(0.6)], pos, None), (false, Vec3::new(0, 0, 0)));
    assert_eq!(grounded_check(&vec![floor_at(0.5)], pos, None), (true, flat.normal));
}

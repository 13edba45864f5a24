use capsule_collision::geom::Triangle;
use capsule_collision::physics::{grounded_check, resolve_penetration};
use capsule_collision::player::{MoveInput, Player};
use capsule_collision::vector::Vec3;

fn world(x: f64, y: f64, z: f64) -> Vec3 {
    Vec3::new(units(x), units(y), units(z))
}

fn units(v: f64) -> i64 {
    (v * 1_000_000.0).round() as i64
}

fn no_keys() -> MoveInput {
    MoveInput {
        forward: false,
        back: false,
        left: false,
        right: false,
        jump_pressed: false,
        jump_released: false,
    }
}

/// One large triangle at height zero whose normal points up.
fn floor() -> Vec<Triangle> {
    vec![Triangle::new(
        world(-400.0, 0.0, -400.0),
        world(0.0, 0.0, 400.0),
        world(400.0, 0.0, -400.0),
    )]
}

#[test]
fn dropped_player_comes_to_rest_on_the_floor() {
    let triangles = floor();
    assert_eq!(triangles[0].normal, Vec3::new(0, 1_000_000, 0));
    let mut player = Player::new();
    assert_eq!(player.position, world(0.0, 20.0, -2.0));
    let look = Vec3::new(0, 0, -1_000_000);
    let dt = units(16.0);
    let mut lowest = player.position.y;
    for _ in 0..400 {
        player.tick(&no_keys(), look, &triangles, dt);
        lowest = lowest.min(player.position.y);
    }
    // Floor height, plus half the height of the capsule, plus its radius,
    // plus the margin of the last push.
    assert_eq!(player.position, Vec3::new(0, 1_000_100, -2_000_000));
    assert_eq!(player.velocity, Vec3::new(0, 0, 0));
    assert!(player.prev_is_grounded);
    assert!(lowest > 0);
    let at_rest = player.position;
    for _ in 0..50 {
        player.tick(&no_keys(), look, &triangles, dt);
        assert_eq!(player.position, at_rest);
        assert_eq!(player.velocity.y, 0);
    }
}

#[test]
fn player_without_floor_falls_and_starts_again() {
    let triangles: Vec<Triangle> = Vec::new();
    let mut player = Player::new();
    let look = Vec3::new(0, 0, -1_000_000);
    let mut respawned = false;
    let mut before = player.position.y;
    for _ in 0..400 {
        player.tick(&no_keys(), look, &triangles, units(16.0));
        assert!(player.position.y >= -30_000_000);
        if player.position.y > before {
            respawned = true;
            assert_eq!(player.position, world(0.0, 20.0, -2.0));
            assert_eq!(player.velocity, Vec3::new(0, 0, 0));
        }
        before = player.position.y;
    }
    assert!(respawned);
}

#[test]
fn resting_capsule_is_grounded_and_lifted_capsule_is_not() {
    let triangles = floor();
    let (grounded, normal) = grounded_check(&triangles, world(3.0, 1.0, 4.0), None);
    assert!(grounded);
    assert_eq!(normal, Vec3::new(0, 1_000_000, 0));
    let (grounded, normal) = grounded_check(&triangles, world(3.0, 1.009999, 4.0), None);
    assert!(grounded);
    assert_eq!(normal, Vec3::new(0, 1_000_000, 0));
    let (grounded, normal) = grounded_check(&triangles, world(3.0, 1.01, 4.0), None);
    assert!(!grounded);
    assert_eq!(normal, Vec3::new(0, 0, 0));
    let (grounded, _) = grounded_check(&triangles, world(3.0, 5.0, 4.0), None);
    assert!(!grounded);
}

#[test]
fn floor_pushes_the_player_up_with_a_margin() {
    let triangles = vec![Triangle::new(
        world(1.0, -0.25, 0.0),
        world(0.0, -0.25, -1.0),
        world(-1.0, -0.25, 0.0),
    )];
    assert_eq!(
        resolve_penetration(&triangles, world(0.0, 0.0, 0.0)),
        Vec3::new(0, 750_100, 0)
    );
    let none: Vec<Triangle> = Vec::new();
    assert_eq!(resolve_penetration(&none, world(0.0, 0.0, 0.0)), Vec3::new(0, 0, 0));
}

use capsule_collision::player::{
    accelerate, air_move, apply_friction, get_wish_dir, ground_move, start, AIR_ACCELERATION,
    AIR_DECELERATION, GRAVITY, GROUND_ACCELERATION, JUMP_FORCE, MAX_SPEED_ON_ONE_DIMENSION,
};

fn keys(forward: bool, back: bool, left: bool, right: bool) -> MoveInput {
    MoveInput { forward, back, left, right, jump_pressed: false, jump_released: false }
}

#[test]
fn new_player_stands_at_the_start() {
    let player = Player::new();
    assert_eq!(player.position, start());
    assert_eq!(player.position, world(0.0, 20.0, -2.0));
    assert_eq!(player.velocity, Vec3::new(0, 0, 0));
    assert_eq!(player.forward, Vec3::new(0, 0, -1_000_000));
    assert!(!player.prev_is_grounded);
    assert!(!player.gonna_jump);
}

#[test]
fn wish_direction_follows_the_keys() {
    let ahead = Vec3::new(0, 0, -1_000_000);
    assert_eq!(get_wish_dir(&keys(false, false, false, false), ahead), Vec3::new(0, 0, 0));
    assert_eq!(get_wish_dir(&keys(true, false, false, false), ahead), Vec3::new(0, 0, -1_000_000));
    assert_eq!(get_wish_dir(&keys(false, true, false, false), ahead), Vec3::new(0, 0, 1_000_000));
    assert_eq!(get_wish_dir(&keys(false, false, true, false), ahead), Vec3::new(-1_000_000, 0, 0));
    assert_eq!(get_wish_dir(&keys(false, false, false, true), ahead), Vec3::new(1_000_000, 0, 0));
    assert_eq!(get_wish_dir(&keys(true, false, false, true), ahead), Vec3::new(707_106, 0, -707_106));
    assert_eq!(get_wish_dir(&keys(false, true, true, false), ahead), Vec3::new(-707_106, 0, 707_106));
    // Forwards wins over backwards, left over right.
    assert_eq!(get_wish_dir(&keys(true, true, true, true), ahead), Vec3::new(-707_106, 0, -707_106));
    // Without a direction of view there is nowhere to go.
    assert_eq!(get_wish_dir(&keys(true, false, false, true), Vec3::new(0, 0, 0)), Vec3::new(0, 0, 0));
    assert_eq!(
        get_wish_dir(&keys(true, false, false, false), Vec3::new(600_000, 0, 800_000)),
        Vec3::new(600_000, 0, 800_000)
    );
}

#[test]
fn acceleration_stops_at_the_greatest_speed() {
    let wish = Vec3::new(1_000_000, 0, 0);
    let dt = units(16.0);
    let mut v = Vec3::new(0, 0, 0);
    accelerate(&mut v, wish, GROUND_ACCELERATION, dt);
    assert_eq!(v, Vec3::new(3_600, 0, 0));
    accelerate(&mut v, wish, GROUND_ACCELERATION, dt);
    assert_eq!(v, Vec3::new(7_200, 0, 0));
    let mut v = Vec3::new(74_000, 5, -7);
    accelerate(&mut v, wish, GROUND_ACCELERATION, dt);
    assert_eq!(v, Vec3::new(MAX_SPEED_ON_ONE_DIMENSION, 5, -7));
    accelerate(&mut v, wish, GROUND_ACCELERATION, dt);
    assert_eq!(v, Vec3::new(75_000, 5, -7));
    let mut v = Vec3::new(80_000, 0, 0);
    accelerate(&mut v, wish, GROUND_ACCELERATION, dt);
    assert_eq!(v, Vec3::new(80_000, 0, 0));
    // Against the movement there is always room.
    let mut v = Vec3::new(-80_000, 0, 0);
    accelerate(&mut v, wish, GROUND_ACCELERATION, dt);
    assert_eq!(v, Vec3::new(-76_400, 0, 0));
    let mut v = Vec3::new(0, 0, 0);
    accelerate(&mut v, wish, AIR_ACCELERATION, dt);
    assert_eq!(v, Vec3::new(12, 0, 0));
    accelerate(&mut v, wish, AIR_DECELERATION, dt);
    assert_eq!(v, Vec3::new(72, 0, 0));
    accelerate(&mut v, Vec3::new(0, 0, 0), GROUND_ACCELERATION, dt);
    assert_eq!(v, Vec3::new(72, 0, 0));
    accelerate(&mut v, wish, GROUND_ACCELERATION, 0);
    assert_eq!(v, Vec3::new(72, 0, 0));
}

#[test]
fn friction_slows_down_and_stops() {
    let dt = units(16.0);
    let mut v = Vec3::new(50_000, 0, 0);
    apply_friction(&mut v, dt);
    assert_eq!(v, Vec3::new(34_000, 0, 0));
    let mut v = Vec3::new(30_000, 0, -40_000);
    apply_friction(&mut v, dt);
    assert_eq!(v, Vec3::new(20_400, 0, -27_200));
    let mut v = Vec3::new(999, 0, 0);
    apply_friction(&mut v, dt);
    assert_eq!(v, Vec3::new(0, 0, 0));
    let mut v = Vec3::new(1_000, 0, 0);
    apply_friction(&mut v, dt);
    assert_eq!(v, Vec3::new(680, 0, 0));
    // Friction never turns the velocity round.
    let mut v = Vec3::new(50_000, 0, 0);
    apply_friction(&mut v, units(50.0));
    assert_eq!(v, Vec3::new(0, 0, 0));
    let mut v = Vec3::new(50_000, 0, 0);
    apply_friction(&mut v, units(60.0));
    assert_eq!(v, Vec3::new(0, 0, 0));
    let mut v = Vec3::new(50_000, 0, 0);
    apply_friction(&mut v, 0);
    assert_eq!(v, Vec3::new(50_000, 0, 0));
}

#[test]
fn velocity_on_ground_and_in_the_air() {
    let dt = units(16.0);
    let up = Vec3::new(0, 1_000_000, 0);
    let wish = Vec3::new(0, 0, -1_000_000);
    let v = Vec3::new(0, -5_000, -50_000);
    assert_eq!(ground_move(v, wish, up, dt, false, false), Vec3::new(0, 0, -53_600));
    assert_eq!(ground_move(v, wish, up, dt, true, false), Vec3::new(0, 0, -37_600));
    assert_eq!(ground_move(v, wish, up, dt, true, true), Vec3::new(0, JUMP_FORCE, -53_600));
    assert_eq!(ground_move(v, wish, up, dt, false, true), Vec3::new(0, JUMP_FORCE, -53_600));
    assert_eq!(air_move(v, wish, dt), Vec3::new(0, -5_480, -50_012));
    assert_eq!(air_move(v, wish.negated(), dt), Vec3::new(0, -5_480, -49_940));
    assert_eq!(air_move(v, Vec3::new(0, 0, 0), dt), Vec3::new(0, -5_480, -50_000));
    assert_eq!(GRAVITY * 16, 480);
}

#[test]
fn player_walks_jumps_and_lands() {
    let triangles = floor();
    let look = Vec3::new(0, 0, -1_000_000);
    let dt = units(16.0);
    let mut player = Player::new();
    for _ in 0..400 {
        player.tick(&no_keys(), look, &triangles, dt);
    }
    assert!(player.prev_is_grounded);
    let rest = player.position;

    let forward = MoveInput { forward: true, ..no_keys() };
    player.tick(&forward, look, &triangles, dt);
    assert_eq!(player.velocity, Vec3::new(0, 0, -3_600));
    assert_eq!(player.position, Vec3::new(0, rest.y, rest.z - 57_600));
    for _ in 0..200 {
        player.tick(&forward, look, &triangles, dt);
        assert_eq!(player.position.y, rest.y);
        assert!(player.velocity.z < 0 && player.velocity.z >= -MAX_SPEED_ON_ONE_DIMENSION);
        assert_eq!(player.velocity.x, 0);
        assert_eq!(player.velocity.y, 0);
    }
    // Friction and acceleration come to a balance below the greatest
    // speed.
    let cruising = player.velocity;
    player.tick(&forward, look, &triangles, dt);
    assert_eq!(player.velocity, cruising);

    let jump = MoveInput { jump_pressed: true, ..no_keys() };
    player.tick(&jump, look, &triangles, dt);
    assert_eq!(player.velocity.y, JUMP_FORCE);
    assert!(!player.gonna_jump);
    assert_eq!(player.position.y, rest.y + 160_000);
    let mut highest = player.position.y;
    let mut steps = 0;
    loop {
        player.tick(&no_keys(), look, &triangles, dt);
        highest = highest.max(player.position.y);
        steps += 1;
        if player.prev_is_grounded && player.velocity.y == 0 {
            break;
        }
        assert!(steps < 200);
    }
    assert!(highest > rest.y + 1_000_000);
    assert_eq!(player.position.y, rest.y);

    // A jump asked for in the air is made on landing, unless withdrawn.
    let mut falling = Player::new();
    falling.tick(&jump, look, &triangles, dt);
    assert!(falling.gonna_jump);
    let release = MoveInput { jump_released: true, ..no_keys() };
    falling.tick(&release, look, &triangles, dt);
    assert!(!falling.gonna_jump);
    falling.tick(&jump, look, &triangles, dt);
    assert!(falling.gonna_jump);
    let mut jumped = false;
    for _ in 0..400 {
        let was_asked = falling.gonna_jump;
        falling.tick(&no_keys(), look, &triangles, dt);
        if was_asked && !falling.gonna_jump {
            assert_eq!(falling.velocity.y, JUMP_FORCE);
            jumped = true;
            break;
        }
    }
    assert!(jumped);
}

#[test]
fn player_turns_with_the_view() {
    let triangles = floor();
    let dt = units(16.0);
    let mut player = Player::new();
    for _ in 0..400 {
        player.tick(&no_keys(), Vec3::new(0, 0, -1_000_000), &triangles, dt);
    }
    let look = Vec3::new(600_000, -300_000, 800_000);
    let forward = MoveInput { forward: true, ..no_keys() };
    player.tick(&forward, look, &triangles, dt);
    assert_eq!(player.forward, look);
    assert_eq!(player.velocity, Vec3::new(2_160, 0, 2_880));
    // Looking straight down there is no way forwards.
    let mut still = Player::new();
    for _ in 0..400 {
        still.tick(&no_keys(), Vec3::new(0, 0, -1_000_000), &triangles, dt);
    }
    still.tick(&forward, Vec3::new(0, -1_000_000, 0), &triangles, dt);
    assert_eq!(still.velocity, Vec3::new(0, 0, 0));
}

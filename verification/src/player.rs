//! Locomotion of the player: from the keys held and the time passed to a
//! velocity, from the velocity to a position, and from the triangles of
//! the world back to a position outside them.
//!
//! Speeds are in world units per millisecond, times in milliseconds, both
//! in fixed point.
use vstd::prelude::*;
use crate::fixed::{
    abs_int, div_trunc, lemma_div_trunc_bounds, lemma_div_trunc_le, lemma_product_bound,
    COORD_MAX, REACH, SCALE,
};
use crate::geom::{
    horizontal_direction, horz_norm, lemma_along_within, lemma_near_unit_within,
    project_vector_on_plane, vector_on_plane, Triangle,
};
use crate::keys::{Keys, KEY_A, KEY_D, KEY_S, KEY_SPACE, KEY_W};
use crate::physics::{
    ground_contact, ground_from, grounded_check, lemma_length_bound, lemma_unit_times,
    player_capsule, probe_directions, resolve_penetration, resolved_displacement, up, CAPSULE_MAX,
};
use crate::vector::{
    lemma_dot_bound, lemma_norm2_bound, lemma_norm2_nonnegative, lemma_square_below, mul_wide,
    Int3, Vec3,
};

verus! {

/// Acceleration on the ground, per millisecond.
pub const GROUND_ACCELERATION: i64 = 3_000;

/// Share of the speed that friction takes per millisecond.
pub const GROUND_FRICTION: i64 = 20_000;

/// Below this speed friction stops the player at once.
pub const GROUND_FRICTION_LOWER_LIMIT: i64 = 1_000;

/// Acceleration in the air along the movement, per millisecond.
pub const AIR_ACCELERATION: i64 = 10;

/// Acceleration in the air against the movement, per millisecond.
pub const AIR_DECELERATION: i64 = 50;

/// The speed along the wished direction beyond which the player does not
/// accelerate.
pub const MAX_SPEED_ON_ONE_DIMENSION: i64 = 75_000;

/// Downward acceleration in the air, per millisecond.
pub const GRAVITY: i64 = 30;

/// Upward speed that a jump adds.
pub const JUMP_FORCE: i64 = 10_000;

/// Height below which a player has fallen out of the world.
pub const WORLD_FLOOR: i64 = -30_000_000;

/// Longest step of time: one second.
pub const MAX_DT: i64 = 1_000_000_000;

/// Largest magnitude of a component of the velocity that a player keeps
/// from one step to the next: two hundred world units per millisecond,
/// far beyond what falling through the whole world gives. Up to it a
/// step cannot overflow.
pub const VELOCITY_MAX: i64 = 200_000_000;

/// The least squared length, in raw units, of a sum of wished movements
/// that still has a direction.
pub const WISH_MIN_NORM2: i64 = 10_000_000;

/// Where a player starts, and starts again after leaving the world.
pub open spec fn start_position() -> Int3 {
    Int3 { x: 0, y: 20_000_000, z: -2_000_000 }
}

/// What the player asks for in one step: the movement keys held, and
/// whether the jump key went down or up since the step before.
#[derive(Clone, Copy, Debug)]
pub struct MoveInput {
    pub forward: bool,
    pub back: bool,
    pub left: bool,
    pub right: bool,
    pub jump_pressed: bool,
    pub jump_released: bool,
}

impl MoveInput {
    /// What the keyboard asks for: the four movement keys as they are
    /// held, and the jump key as it went down or up in the last step.
    pub fn from_keys(keys: &Keys) -> (input: MoveInput)
        ensures
            input.forward == keys.held().contains(KEY_W),
            input.back == keys.held().contains(KEY_S),
            input.left == keys.held().contains(KEY_A),
            input.right == keys.held().contains(KEY_D),
            input.jump_pressed == keys.pressed().contains(KEY_SPACE),
            input.jump_released == keys.released().contains(KEY_SPACE),
    {
        MoveInput {
            forward: keys.get_key(KEY_W),
            back: keys.get_key(KEY_S),
            left: keys.get_key(KEY_A),
            right: keys.get_key(KEY_D),
            jump_pressed: keys.get_key_down(KEY_SPACE),
            jump_released: keys.get_key_up(KEY_SPACE),
        }
    }
}

/// The direction in which the player wishes to move, from the keys held
/// and the horizontal direction `forward` of the view: forwards or
/// backwards, plus to the left or to the right, normalized. Without a
/// key, and where the wishes cancel, it is the sum as it stands.
pub open spec fn wish_direction(input: MoveInput, forward: Int3) -> Int3 {
    let right = Int3 { x: -forward.z, y: 0, z: forward.x };
    let along = if input.forward {
        forward
    } else if input.back {
        forward.negated()
    } else {
        Int3::zero()
    };
    let sum = if input.left {
        along.minus(right)
    } else if input.right {
        along.plus(right)
    } else {
        along
    };
    if sum.norm2() > WISH_MIN_NORM2 {
        sum.normalized()
    } else {
        sum
    }
}

/// The velocity `v` after accelerating for `dt` along `wish` with the
/// coefficient `coeff`: the speed gained is `coeff` times
/// [`MAX_SPEED_ON_ONE_DIMENSION`] times `dt`, but no more than what the
/// speed along `wish` lacks to [`MAX_SPEED_ON_ONE_DIMENSION`]; a player
/// already faster than that along `wish` gains nothing.
pub open spec fn accelerated(v: Int3, wish: Int3, coeff: int, dt: int) -> Int3 {
    let proj_speed = div_trunc(v.dot(wish), SCALE as int);
    let add_speed = MAX_SPEED_ON_ONE_DIMENSION - proj_speed;
    if add_speed < 0 {
        v
    } else {
        let full = div_trunc(coeff * MAX_SPEED_ON_ONE_DIMENSION * dt, 1_000_000_000_000);
        let amount = if full > add_speed {
            add_speed
        } else {
            full
        };
        v.plus(wish.scaled(amount).over(SCALE as int))
    }
}

/// The velocity `v` after `dt` of friction on the ground: zero below
/// [`GROUND_FRICTION_LOWER_LIMIT`]; else `v` shortened by the share
/// [`GROUND_FRICTION`] of its length per millisecond, and never turned
/// round.
pub open spec fn friction_applied(v: Int3, dt: int) -> Int3 {
    let speed = v.length();
    if speed < GROUND_FRICTION_LOWER_LIMIT {
        Int3::zero()
    } else {
        let down_limit = if speed > GROUND_FRICTION_LOWER_LIMIT {
            speed
        } else {
            GROUND_FRICTION_LOWER_LIMIT as int
        };
        let loss = div_trunc(down_limit * GROUND_FRICTION * dt, 1_000_000_000_000);
        let kept = if speed - loss < 0 {
            0
        } else {
            speed - loss
        };
        v.scaled(kept).over(speed)
    }
}

/// The direction in which the player wishes to move.
pub fn get_wish_dir(input: &MoveInput, forward: Vec3) -> (wish: Vec3)
    requires
        forward@.within(SCALE as int),
    ensures
        wish@ == wish_direction(*input, forward@),
        wish@.within(SCALE as int),
{
    let right: Vec3 = Vec3 { x: -forward.z, y: 0, z: forward.x };
    let along: Vec3 = if input.forward {
        forward
    } else if input.back {
        forward.negated()
    } else {
        Vec3::zero()
    };
    let sum: Vec3 = if input.left {
        along.minus(right)
    } else if input.right {
        along.plus(right)
    } else {
        along
    };
    proof {
        lemma_norm2_bound(sum@, 2 * SCALE);
        lemma_norm2_nonnegative(sum@);
        if sum@.norm2() <= WISH_MIN_NORM2 {
            lemma_square_below(sum@.x, 3_162);
            lemma_square_below(sum@.y, 3_162);
            lemma_square_below(sum@.z, 3_162);
        }
    }
    if sum.norm2() > WISH_MIN_NORM2 as i128 {
        sum.normalized()
    } else {
        sum
    }
}

/// Accelerates `velocity` for `dt` along `wish_dir`.
pub fn accelerate(velocity: &mut Vec3, wish_dir: Vec3, accel_coeff: i64, dt: i64)
    requires
        old(velocity)@.within(REACH as int),
        wish_dir@.within(SCALE as int),
        0 <= accel_coeff <= SCALE,
        0 <= dt <= MAX_DT,
    ensures
        final(velocity)@ == accelerated(old(velocity)@, wish_dir@, accel_coeff as int, dt as int),
        final(velocity)@.minus(old(velocity)@).within(
            div_trunc(accel_coeff * MAX_SPEED_ON_ONE_DIMENSION * dt, 1_000_000_000_000),
        ),
        div_trunc(accel_coeff * MAX_SPEED_ON_ONE_DIMENSION * dt, 1_000_000_000_000) <= 75 * accel_coeff,
{
    proof {
        lemma_dot_bound(velocity@, wish_dir@, REACH as int, SCALE as int);
        lemma_div_trunc_bounds(velocity@.dot(wish_dir@), SCALE as int);
        lemma_product_bound(
            accel_coeff as int,
            MAX_SPEED_ON_ONE_DIMENSION as int,
            accel_coeff as int,
            MAX_SPEED_ON_ONE_DIMENSION as int,
        );
        let cm = accel_coeff * MAX_SPEED_ON_ONE_DIMENSION;
        assert(cm == 75_000 * accel_coeff) by (nonlinear_arith)
            requires
                cm == accel_coeff * MAX_SPEED_ON_ONE_DIMENSION,
                MAX_SPEED_ON_ONE_DIMENSION == 75_000,
        ;
        assert(0 <= cm * dt <= (75 * accel_coeff) * 1_000_000_000_000) by (nonlinear_arith)
            requires
                cm == 75_000 * accel_coeff,
                0 <= accel_coeff,
                0 <= dt <= 1_000_000_000,
        ;
        lemma_div_trunc_le(cm * dt, 1_000_000_000_000, 75 * accel_coeff);
        lemma_div_trunc_bounds(cm * dt, 1_000_000_000_000);
    }
    let proj_speed: i128 = velocity.dot(wish_dir) / (SCALE as i128);
    let add_speed: i128 = MAX_SPEED_ON_ONE_DIMENSION as i128 - proj_speed;
    if add_speed < 0 {
        return ;
    }
    let full: i128 = (mul_wide(accel_coeff, MAX_SPEED_ON_ONE_DIMENSION) * (dt as i128))
        / 1_000_000_000_000;
    let amount: i64 = if full > add_speed {
        add_speed as i64
    } else {
        full as i64
    };
    proof {
        lemma_unit_times(wish_dir.x as int, amount as int);
        lemma_unit_times(wish_dir.y as int, amount as int);
        lemma_unit_times(wish_dir.z as int, amount as int);
    }
    *velocity = velocity.plus(wish_dir.scaled_over(amount, SCALE as i128));
}

/// A component times a share `kept / speed` between zero and one is no
/// larger than the component.
proof fn lemma_share_component(c: int, kept: int, speed: int)
    requires
        0 <= kept <= speed,
        speed > 0,
    ensures
        abs_int(div_trunc(c * kept, speed)) <= abs_int(c),
{
    assert(abs_int(c * kept) <= abs_int(c) * speed) by (nonlinear_arith)
        requires
            0 <= kept <= speed,
    ;
    lemma_div_trunc_le(c * kept, speed, abs_int(c));
}

/// Slows `velocity` down by `dt` of friction on the ground.
pub fn apply_friction(velocity: &mut Vec3, dt: i64)
    requires
        old(velocity)@.within(REACH as int),
        0 <= dt <= MAX_DT,
    ensures
        final(velocity)@ == friction_applied(old(velocity)@, dt as int),
        abs_int(final(velocity).x as int) <= abs_int(old(velocity).x as int),
        abs_int(final(velocity).y as int) <= abs_int(old(velocity).y as int),
        abs_int(final(velocity).z as int) <= abs_int(old(velocity).z as int),
{
    proof {
        lemma_norm2_bound(velocity@, REACH as int);
        lemma_length_bound(velocity@, REACH as int);
    }
    let speed: i64 = velocity.length();
    if speed < GROUND_FRICTION_LOWER_LIMIT {
        *velocity = Vec3::zero();
        return ;
    }
    let down_limit: i64 = if speed > GROUND_FRICTION_LOWER_LIMIT {
        speed
    } else {
        GROUND_FRICTION_LOWER_LIMIT
    };
    proof {
        lemma_product_bound(down_limit as int, GROUND_FRICTION as int, 2 * REACH, 20_000);
        lemma_product_bound(
            down_limit * GROUND_FRICTION,
            dt as int,
            (2 * REACH) * 20_000,
            MAX_DT as int,
        );
        assert(down_limit * GROUND_FRICTION >= 0) by (nonlinear_arith)
            requires
                down_limit >= 0,
                GROUND_FRICTION == 20_000,
        ;
        assert(down_limit * GROUND_FRICTION * dt >= 0) by (nonlinear_arith)
            requires
                down_limit * GROUND_FRICTION >= 0,
                dt >= 0,
        ;
        lemma_div_trunc_bounds(down_limit * GROUND_FRICTION * dt, 1_000_000_000_000);
    }
    let loss: i128 = (mul_wide(down_limit, GROUND_FRICTION) * (dt as i128)) / 1_000_000_000_000;
    let kept: i64 = if (speed as i128) - loss < 0 {
        0
    } else {
        ((speed as i128) - loss) as i64
    };
    proof {
        lemma_share_component(velocity.x as int, kept as int, speed as int);
        lemma_share_component(velocity.y as int, kept as int, speed as int);
        lemma_share_component(velocity.z as int, kept as int, speed as int);
    }
    *velocity = velocity.scaled_over(kept, speed as i128);
}

/// The mathematical model of a [`Player`].
pub struct PlayerState {
    pub velocity: Int3,
    pub position: Int3,
    /// The direction of the view.
    pub forward: Int3,
    /// Whether the player stood on ground in the step before.
    pub prev_is_grounded: bool,
    /// Whether a jump has been asked for and not yet made.
    pub gonna_jump: bool,
}

/// Whether a jump is asked for after the keys of this step: asked anew
/// when the jump key went down, withdrawn when it went up, else as
/// before.
pub open spec fn jump_intent(before: bool, input: MoveInput) -> bool {
    if input.jump_pressed {
        true
    } else if input.jump_released {
        false
    } else {
        before
    }
}

/// The velocity after a step on ground with the normal `normal`:
/// friction, unless the player has just landed or is about to jump;
/// acceleration along `wish`; no part left along the normal; and the
/// speed of the jump upwards, if a jump is asked for.
pub open spec fn ground_velocity(
    v: Int3,
    wish: Int3,
    normal: Int3,
    dt: int,
    was_grounded: bool,
    jump: bool,
) -> Int3 {
    let slowed = if was_grounded && !jump {
        friction_applied(v, dt)
    } else {
        v
    };
    let pushed = accelerated(slowed, wish, GROUND_ACCELERATION as int, dt);
    let flat = vector_on_plane(pushed, normal);
    if jump {
        flat.plus(up(JUMP_FORCE as int))
    } else {
        flat
    }
}

/// The velocity after a step in the air: a weak acceleration along
/// `wish`, less weak where `wish` points against the movement, and the
/// fall that gravity adds in `dt`.
pub open spec fn air_velocity(v: Int3, wish: Int3, dt: int) -> Int3 {
    let coeff = if wish.dot(v) > 0 {
        AIR_ACCELERATION
    } else {
        AIR_DECELERATION
    };
    accelerated(v, wish, coeff as int, dt).minus(up(div_trunc(GRAVITY * dt, SCALE as int)))
}

/// The horizontal unit vector along `v`, or zero where `v` has no
/// horizontal direction.
pub open spec fn horizontal_or_zero(v: Int3) -> Int3 {
    match horizontal_direction(v) {
        Some(d) => d,
        None => Int3::zero(),
    }
}

impl PlayerState {
    /// Position and velocity are within their limits.
    pub open spec fn wf(self) -> bool {
        &&& self.position.within(COORD_MAX as int)
        &&& self.velocity.within(VELOCITY_MAX as int)
    }

    /// The player at the start, with the given memory of ground and jump.
    pub open spec fn respawned(self) -> PlayerState {
        PlayerState { velocity: Int3::zero(), position: start_position(), ..self }
    }

    /// The player has left the world or has become faster than a player
    /// can be.
    pub open spec fn lost(self) -> bool {
        ||| self.position.y < WORLD_FLOOR
        ||| !self.position.within(COORD_MAX as int)
        ||| !self.velocity.within(VELOCITY_MAX as int)
    }

    /// The player after the keys and the view of this step: the new
    /// direction of view, the new intent to jump, and the new velocity on
    /// ground or in the air. A jump made is no longer asked for.
    pub open spec fn steered(self, input: MoveInput, look: Int3, tris: Seq<Triangle>, dt: int) -> PlayerState {
        let jump = jump_intent(self.gonna_jump, input);
        let wish = wish_direction(input, horizontal_or_zero(look));
        let ground = ground_contact(tris, self.position, horizontal_direction(self.velocity));
        if ground.0 {
            PlayerState {
                velocity: ground_velocity(
                    self.velocity,
                    wish,
                    ground.1,
                    dt,
                    self.prev_is_grounded,
                    jump,
                ),
                position: self.position,
                forward: look,
                prev_is_grounded: true,
                gonna_jump: false,
            }
        } else {
            PlayerState {
                velocity: air_velocity(self.velocity, wish, dt),
                position: self.position,
                forward: look,
                prev_is_grounded: false,
                gonna_jump: jump,
            }
        }
    }

    /// The player moved for `dt` along the velocity.
    pub open spec fn advanced(self, dt: int) -> PlayerState {
        PlayerState {
            position: self.position.plus(self.velocity.scaled(dt).over(SCALE as int)),
            ..self
        }
    }

    /// The player taken out of the triangles: moved by the displacement
    /// that resolves the penetration, and left with no velocity along it.
    pub open spec fn resolved(self, tris: Seq<Triangle>) -> PlayerState {
        let displacement = resolved_displacement(tris, self.position);
        PlayerState {
            position: self.position.plus(displacement),
            velocity: vector_on_plane(self.velocity, displacement.normalized()),
            ..self
        }
    }

    /// The player after one step of `dt`: steered, advanced, taken out of
    /// the triangles, and put back to the start where the step has led out
    /// of the world, below [`WORLD_FLOOR`], or to a velocity beyond
    /// [`VELOCITY_MAX`].
    pub open spec fn after_tick(self, input: MoveInput, look: Int3, tris: Seq<Triangle>, dt: int) -> PlayerState {
        let moved = self.steered(input, look, tris, dt).advanced(dt);
        if !moved.position.within(COORD_MAX as int) {
            moved.respawned()
        } else if moved.resolved(tris).lost() {
            moved.resolved(tris).respawned()
        } else {
            moved.resolved(tris)
        }
    }
}

/// The player: where it is, how it moves, where it looks, and what it
/// remembers from the step before.
#[derive(Clone, Copy, Debug)]
pub struct Player {
    pub velocity: Vec3,
    pub position: Vec3,
    pub forward: Vec3,
    pub prev_is_grounded: bool,
    pub gonna_jump: bool,
}

impl View for Player {
    type V = PlayerState;

    open spec fn view(&self) -> PlayerState {
        PlayerState {
            velocity: self.velocity@,
            position: self.position@,
            forward: self.forward@,
            prev_is_grounded: self.prev_is_grounded,
            gonna_jump: self.gonna_jump,
        }
    }
}

/// The velocity after a step on ground with the normal `normal`.
pub fn ground_move(
    velocity: Vec3,
    wish_dir: Vec3,
    normal: Vec3,
    dt: i64,
    was_grounded: bool,
    jump: bool,
) -> (v: Vec3)
    requires
        velocity@.within(VELOCITY_MAX as int),
        wish_dir@.within(SCALE as int),
        normal@.within(SCALE + 2),
        0 <= dt <= MAX_DT,
    ensures
        v@ == ground_velocity(velocity@, wish_dir@, normal@, dt as int, was_grounded, jump),
        v@.within(810_000_000),
{
    let mut velocity: Vec3 = velocity;
    if was_grounded && !jump {
        apply_friction(&mut velocity, dt);
    }
    accelerate(&mut velocity, wish_dir, GROUND_ACCELERATION, dt);
    proof {
        assert(velocity@.within(200_225_000));
        if normal@.norm2() > 0 {
            lemma_along_within(velocity@, normal@, 200_225_000);
        }
    }
    let flat: Vec3 = project_vector_on_plane(velocity, normal);
    assert(flat@.within(800_900_000));
    if jump {
        Vec3 { x: flat.x, y: flat.y + JUMP_FORCE, z: flat.z }
    } else {
        flat
    }
}

/// The velocity after a step in the air.
pub fn air_move(velocity: Vec3, wish_dir: Vec3, dt: i64) -> (v: Vec3)
    requires
        velocity@.within(VELOCITY_MAX as int),
        wish_dir@.within(SCALE as int),
        0 <= dt <= MAX_DT,
    ensures
        v@ == air_velocity(velocity@, wish_dir@, dt as int),
        v@.within(810_000_000),
{
    proof {
        lemma_dot_bound(wish_dir@, velocity@, SCALE as int, VELOCITY_MAX as int);
        lemma_product_bound(GRAVITY as int, dt as int, GRAVITY as int, MAX_DT as int);
        lemma_div_trunc_bounds(GRAVITY * dt, SCALE as int);
        assert(GRAVITY * dt >= 0) by (nonlinear_arith)
            requires
                GRAVITY == 30,
                dt >= 0,
        ;
        assert(GRAVITY * MAX_DT == 30_000_000_000) by (nonlinear_arith)
            requires
                GRAVITY == 30,
                MAX_DT == 1_000_000_000,
        ;
    }
    let air_coeff: i64 = if wish_dir.dot(velocity) > 0 {
        AIR_ACCELERATION
    } else {
        AIR_DECELERATION
    };
    let mut velocity: Vec3 = velocity;
    accelerate(&mut velocity, wish_dir, air_coeff, dt);
    let fall: i128 = mul_wide(GRAVITY, dt) / (SCALE as i128);
    Vec3 { x: velocity.x, y: velocity.y - (fall as i64), z: velocity.z }
}

/// Where a player starts.
pub fn start() -> (p: Vec3)
    ensures
        p@ == start_position(),
{
    Vec3 { x: 0, y: 20_000_000, z: -2_000_000 }
}

impl Player {
    /// A player at rest at the start, looking along the negative `z`
    /// axis.
    pub fn new() -> (p: Player)
        ensures
            p@ == (PlayerState {
                velocity: Int3::zero(),
                position: start_position(),
                forward: Int3 { x: 0, y: 0, z: -(SCALE as int) },
                prev_is_grounded: false,
                gonna_jump: false,
            }),
            p@.wf(),
    {
        Player {
            velocity: Vec3::zero(),
            position: start(),
            forward: Vec3 { x: 0, y: 0, z: -SCALE },
            prev_is_grounded: false,
            gonna_jump: false,
        }
    }

    /// The velocity after the keys of this step, on ground or in the air.
    fn steer(&mut self, input: &MoveInput, look: Vec3, triangles: &Vec<Triangle>, dt: i64)
        requires
            old(self)@.wf(),
            look@.within(REACH as int),
            forall|i: int| 0 <= i < triangles.len() ==> (#[trigger] triangles[i]).wf(),
            0 <= dt <= MAX_DT,
        ensures
            final(self)@ == old(self)@.steered(*input, look@, triangles@, dt as int),
            final(self)@.velocity.within(810_000_000),
    {
        self.forward = look;
        if input.jump_pressed {
            self.gonna_jump = true;
        } else if input.jump_released {
            self.gonna_jump = false;
        }
        let ahead: Vec3 = match horz_norm(&self.forward) {
            Some(d) => d,
            None => Vec3::zero(),
        };
        let wish_dir: Vec3 = get_wish_dir(input, ahead);
        let (is_grounded, ground_normal) = grounded_check(
            triangles,
            self.position,
            horz_norm(&self.velocity),
        );
        if is_grounded {
            proof {
                lemma_ground_normal_within(
                    triangles@,
                    self.position@,
                    horizontal_direction(self.velocity@),
                );
            }
            self.velocity = ground_move(
                self.velocity,
                wish_dir,
                ground_normal,
                dt,
                self.prev_is_grounded,
                self.gonna_jump,
            );
            self.gonna_jump = false;
        } else {
            self.velocity = air_move(self.velocity, wish_dir, dt);
        }
        self.prev_is_grounded = is_grounded;
    }

    /// One step of `dt` milliseconds: the player is steered by `input`
    /// and the direction of view `look`, moved along its velocity, taken
    /// out of the triangles it has run into, and put back to the start
    /// where the step has led out of the world.
    pub fn tick(&mut self, input: &MoveInput, look: Vec3, triangles: &Vec<Triangle>, dt: i64)
        requires
            old(self)@.wf(),
            look@.within(REACH as int),
            forall|i: int| 0 <= i < triangles.len() ==> (#[trigger] triangles[i]).wf(),
            0 <= dt <= MAX_DT,
        ensures
            final(self)@ == old(self)@.after_tick(*input, look@, triangles@, dt as int),
            final(self)@.wf(),
    {
        self.steer(input, look, triangles, dt);
        proof {
            lemma_product_bound(self.velocity.x as int, dt as int, 810_000_000, MAX_DT as int);
            lemma_product_bound(self.velocity.y as int, dt as int, 810_000_000, MAX_DT as int);
            lemma_product_bound(self.velocity.z as int, dt as int, 810_000_000, MAX_DT as int);
            lemma_div_trunc_bounds(self.velocity.x * dt, SCALE as int);
            lemma_div_trunc_bounds(self.velocity.y * dt, SCALE as int);
            lemma_div_trunc_bounds(self.velocity.z * dt, SCALE as int);
        }
        self.position = self.position.plus(self.velocity.scaled_over(dt, SCALE as i128));
        if !self.position.is_within(COORD_MAX) {
            self.velocity = Vec3::zero();
            self.position = start();
            return ;
        }
        let displacement: Vec3 = resolve_penetration(triangles, self.position);
        self.position = self.position.plus(displacement);
        proof {
            lemma_norm2_bound(displacement@, 2 * CAPSULE_MAX);
        }
        self.velocity = project_vector_on_plane(self.velocity, displacement.normalized());
        if self.position.y < WORLD_FLOOR || !self.position.is_within(COORD_MAX)
            || !self.velocity.is_within(VELOCITY_MAX) {
            self.velocity = Vec3::zero();
            self.position = start();
        }
    }
}

/// The normal of the ground under a player is the unit normal of one of
/// the triangles, or zero.
pub proof fn lemma_ground_normal_within(tris: Seq<Triangle>, pos: Int3, move_dir: Option<Int3>)
    requires
        forall|i: int| 0 <= i < tris.len() ==> (#[trigger] tris[i]).wf(),
    ensures
        ground_contact(tris, pos, move_dir).1.within(SCALE + 2),
{
    let dirs = probe_directions(move_dir);
    lemma_ground_from_within(tris, player_capsule(pos).c1, dirs.0, dirs.1, 0);
}

/// The normal that [`ground_from`] finds is the unit
/// normal of one of the triangles, or zero.
proof fn lemma_ground_from_within(tris: Seq<Triangle>, center: Int3, forward: Int3, side: Int3, i: nat)
    requires
        forall|j: int| 0 <= j < tris.len() ==> (#[trigger] tris[j]).wf(),
    ensures
        ground_from(tris, center, forward, side, i).1.within(SCALE + 2),
    decreases tris.len() - i,
{
    if i < tris.len() {
        lemma_near_unit_within(tris[i as int].normal@);
        lemma_ground_from_within(tris, center, forward, side, i + 1);
    }
}

} // verus!

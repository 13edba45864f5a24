//! Collision of a capsule with a world of triangles, and the locomotion of
//! a first-person player built on it, in exact fixed-point arithmetic.
//!
//! Every number is an integer that counts millionths: of a world unit for
//! lengths, of a millisecond for times, of a world unit per millisecond
//! for speeds. Each function states what it computes over unbounded
//! integers, and is proved to compute just that without overflow.
//!
//! - [`fixed`]: the scale, the limits of the world, square roots and
//!   division.
//! - [`vector`]: vectors and points.
//! - [`geom`]: triangles, planes, segments, rays and matrices.
//! - [`physics`]: the capsule, how triangles push it out, and whether it
//!   stands on ground.
//! - [`player`]: velocity and position of the player from one step to the
//!   next.
//! - [`keys`], [`time`], [`mesh`], [`math`]: the keyboard, the clock, the
//!   models of the world, and small helpers.
//! - [`theorems`]: what holds of all of this for every input.
pub mod fixed;
pub mod geom;
pub mod keys;
pub mod math;
pub mod mesh;
pub mod physics;
pub mod player;
pub mod theorems;
pub mod time;
pub mod vector;

//! Simulation core of a top-down arcade space shooter.
//!
//! A fixed-order per-frame loop moves the player ship, spawns enemies on a
//! timer, fires cooldown-gated lasers, detects axis-aligned bounding-box
//! collisions between player lasers and scorable targets, and mutates a
//! score. The host platform layer supplies elapsed time, input state and the
//! viewport height, and reads back entity transforms and the score for
//! rendering; everything it supplies and reads is a plain value.
//!
//! All world coordinates and sprite extents are in milliunits (one
//! thousandth of a world unit) and all times in whole milliseconds, so every
//! quantity the rules speak of is exact integer arithmetic.

pub mod units;
pub mod timer;
pub mod entity;
pub mod store;
pub mod movement;
pub mod motion;
pub mod collision;
pub mod weapon;
pub mod spawn;
pub mod world;

//! Collision-and-lifecycle core of an arcade space shooter.
//!
//! The library models the play field over plain integers: a pairwise
//! circle-intersection detector, per-frame hit-event buses, per-entity
//! lifecycle state machines (ship, saucer, weapon cooldowns), the
//! reaction policy that splits asteroids and emits explosion bursts,
//! and the boundary wrap/removal policy.  The host's rendering, input
//! polling and physics integration stay outside; they feed positions in
//! and read spawn intents back out.

pub mod boundary;
pub mod detect;
pub mod geom;
pub mod react;
pub mod rng;
pub mod spawn;
pub mod state;
pub mod world;

//! A 2D predator-prey flocking ("boids") simulation core.
//!
//! All kinematics are carried out in fixed-point arithmetic: one world unit
//! is `SCALE` (1000) integer ticks, so a coordinate of 1.5 world units is
//! stored as 1500.  Every steering rule, the integration step and the
//! toroidal boundary wrap are verified against an exact integer model.

pub mod geom;
pub mod limit;
pub mod boid;
pub mod flock;

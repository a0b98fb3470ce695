//! Simulation core of a small arcade shooter: a swarm of targets descends
//! toward a paddle that fires at it and is fired upon.
//!
//! All quantities are integers. Lengths are in milli-units (a thousandth of
//! a playfield unit, the field spanning -640 to 640 units across), times are
//! in milliseconds, velocities in milli-units per second.

pub mod combat;
pub mod geometry;
pub mod pacing;
pub mod paddle;
pub mod projectile;
pub mod rng;
pub mod session;
pub mod state;
pub mod swarm;

pub use geometry::Rect;
pub use paddle::MBat;
pub use projectile::{MBullet, ShootEvent};
pub use session::{Input, Session};
pub use state::GameState;
pub use swarm::{Swarm, Target};

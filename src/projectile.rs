use vstd::prelude::*;
use crate::geometry::{in_view, displacement, scaled_by_time, FIELD_HALF, VIEW_HALF_HEIGHT};

verus! {

/// A request to spawn a projectile at `(x, y)` with velocity `(vx, vy)`;
/// `alien` tells a swarm shot from a paddle shot.
#[derive(Clone, Copy, Debug, PartialEq, Eq)]
pub struct ShootEvent {
    pub x: i64,
    pub y: i64,
    pub vx: i64,
    pub vy: i64,
    pub alien: bool,
}

impl ShootEvent {
    pub fn new(x: i64, y: i64, vx: i64, vy: i64, alien: bool) -> (r: ShootEvent)
        ensures
            r == (ShootEvent { x, y, vx, vy, alien }),
    {
        ShootEvent { x, y, vx, vy, alien }
    }
}

} // verus!

verus! {

/// Bound on a projectile's speed along each axis.
pub const SPEED_LIMIT: i64 = 1_000_000;

/// A projectile in flight: position, velocity, and whether the swarm fired it.
#[derive(Clone, Copy, Debug, PartialEq, Eq)]
pub struct MBullet {
    pub x: i64,
    pub y: i64,
    pub vx: i64,
    pub vy: i64,
    pub alien: bool,
}

/// The projectile a request spawns.
pub open spec fn bullet_of(e: ShootEvent) -> MBullet {
    MBullet { x: e.x, y: e.y, vx: e.vx, vy: e.vy, alien: e.alien }
}

/// Whether a request can be honoured: its point is visible (a projectile
/// anywhere else would be retired at once) and its speed within bounds.
pub open spec fn spawnable(e: ShootEvent) -> bool {
    in_view(e.x as int, e.y as int) && -SPEED_LIMIT <= e.vx <= SPEED_LIMIT && -SPEED_LIMIT <= e.vy
        <= SPEED_LIMIT
}

/// The projectile after `dt_ms` of flight.
pub open spec fn flown(b: MBullet, dt_ms: int) -> MBullet {
    MBullet {
        x: (b.x + displacement(b.vx as int, dt_ms)) as i64,
        y: (b.y + displacement(b.vy as int, dt_ms)) as i64,
        ..b
    }
}

impl MBullet {
    /// A projectile between two frames: visible, speed within bounds.
    pub open spec fn wf(self) -> bool {
        &&& in_view(self.x as int, self.y as int)
        &&& -SPEED_LIMIT <= self.vx <= SPEED_LIMIT
        &&& -SPEED_LIMIT <= self.vy <= SPEED_LIMIT
    }

    /// A projectile during a frame, after it has moved.
    pub open spec fn in_flight(self) -> bool {
        &&& -10_000_000_000_000 <= self.x <= 10_000_000_000_000
        &&& -10_000_000_000_000 <= self.y <= 10_000_000_000_000
        &&& -SPEED_LIMIT <= self.vx <= SPEED_LIMIT
        &&& -SPEED_LIMIT <= self.vy <= SPEED_LIMIT
    }

    pub fn spawn(e: ShootEvent) -> (r: MBullet)
        requires
            spawnable(e),
        ensures
            r == bullet_of(e),
            r.wf(),
    {
        MBullet { x: e.x, y: e.y, vx: e.vx, vy: e.vy, alien: e.alien }
    }

    /// Advances the projectile by its velocity over `dt_ms`.
    pub fn fly(&mut self, dt_ms: u32)
        requires
            old(self).wf(),
        ensures
            *final(self) == flown(*old(self), dt_ms as int),
            final(self).in_flight(),
    {
        let dx = scaled_by_time(self.vx, dt_ms);
        let dy = scaled_by_time(self.vy, dt_ms);
        self.x = self.x + dx;
        self.y = self.y + dy;
    }

    /// Whether the projectile is in the visible area.
    pub fn visible(&self) -> (r: bool)
        ensures
            r == in_view(self.x as int, self.y as int),
    {
        -FIELD_HALF <= self.x && self.x <= FIELD_HALF && -VIEW_HALF_HEIGHT <= self.y && self.y
            <= VIEW_HALF_HEIGHT
    }
}

} // verus!

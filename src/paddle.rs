use vstd::prelude::*;
use crate::geometry::{Rect, FIELD_HALF, div_toward_zero, displacement, scaled_by_time};
use crate::projectile::ShootEvent;

verus! {

/// Height of the paddle's centre line.
pub const PADDLE_Y: i64 = -360_000;

pub const PADDLE_HALF_WIDTH: i64 = 40_000;

pub const PADDLE_HALF_HEIGHT: i64 = 10_000;

/// Mass of the paddle, in thousandths.
pub const MASS_MILLI: i64 = 1000;

/// Drag coefficient, in thousandths.
pub const DRAG_MILLI: i64 = 1000;

/// Force applied while a move action is held.
pub const PUSH_FORCE: i64 = 100_000;

/// Minimum time between two paddle shots.
pub const SHOT_DELAY_MS: u64 = 1500;

/// Longest time slice integrated in one step; longer frames are cut into
/// slices of at most this length.
pub const MAX_STEP_MS: u32 = 1000;

/// Speed of a paddle shot, upward.
pub const PADDLE_SHOT_SPEED: i64 = 100_000;

/// How far above the paddle's centre its shots appear.
pub const PADDLE_SHOT_OFFSET: i64 = 20_000;

/// Velocity reached under a constant force `f`: `f / drag`.
pub open spec fn terminal_velocity(f: int) -> int {
    f * 1000 / DRAG_MILLI as int
}

/// Lowest and highest admissible paddle centre.
pub open spec fn x_low() -> int {
    -FIELD_HALF + PADDLE_HALF_WIDTH
}

pub open spec fn x_high() -> int {
    FIELD_HALF - PADDLE_HALF_WIDTH
}

/// `v + dt * (f - v * drag) / mass`, rounded toward zero.
pub open spec fn velocity_after(v: int, f: int, dt_ms: int) -> int {
    v + div_toward_zero(dt_ms * (f * 1000 - v * DRAG_MILLI), 1000 * MASS_MILLI)
}

/// The velocity after an inelastic wall bounce: reversed and scaled by 0.7,
/// rounded toward zero.
pub open spec fn bounce(v: int) -> int {
    -div_toward_zero(v * 7, 10)
}

/// The paddle: horizontal position, velocity, applied force and the play
/// time of its last shot.
#[derive(Clone, Copy, Debug, PartialEq, Eq)]
pub struct MBat {
    pub x: i64,
    pub v: i64,
    pub f: i64,
    pub last_shot_ms: Option<u64>,
}

/// One integration step of `dt_ms` (at most `MAX_STEP_MS`).
pub open spec fn integrated(p: MBat, dt_ms: int) -> MBat {
    let v1 = velocity_after(p.v as int, p.f as int, dt_ms);
    let x1 = p.x + displacement(v1, dt_ms);
    if x1 < x_low() {
        MBat { x: x_low() as i64, v: bounce(v1) as i64, ..p }
    } else if x1 > x_high() {
        MBat { x: x_high() as i64, v: bounce(v1) as i64, ..p }
    } else {
        MBat { x: x1 as i64, v: v1 as i64, ..p }
    }
}

/// Integration over `dt_ms`, in slices of at most `MAX_STEP_MS`.
pub open spec fn advanced(p: MBat, dt_ms: nat) -> MBat
    decreases dt_ms,
{
    if dt_ms <= MAX_STEP_MS {
        integrated(p, dt_ms as int)
    } else {
        advanced(integrated(p, MAX_STEP_MS as int), (dt_ms - MAX_STEP_MS) as nat)
    }
}

/// The force for the held move actions; opposite actions cancel.
pub open spec fn force_for(left: bool, right: bool) -> int {
    (if right { PUSH_FORCE as int } else { 0 }) - (if left { PUSH_FORCE as int } else { 0 })
}

proof fn lemma_velocity_step(v: int, f: int, dt: int)
    requires
        -PUSH_FORCE <= v <= PUSH_FORCE,
        -PUSH_FORCE <= f <= PUSH_FORCE,
        0 <= dt <= MAX_STEP_MS,
    ensures
        v <= f ==> v <= velocity_after(v, f, dt) <= f,
        f <= v ==> f <= velocity_after(v, f, dt) <= v,
{
    let n = dt * (f * 1000 - v * 1000);
    if v <= f {
        assert(n == (dt * (f - v)) * 1000) by (nonlinear_arith)
            requires
                n == dt * (f * 1000 - v * 1000),
        ;
        assert(0 <= dt * (f - v) <= 1000 * (f - v)) by (nonlinear_arith)
            requires
                v <= f,
                0 <= dt <= 1000,
        ;
        vstd::arithmetic::div_mod::lemma_div_is_ordered(n, 1_000_000 * (f - v), 1_000_000);
        vstd::arithmetic::div_mod::lemma_div_multiples_vanish(f - v, 1_000_000);
        vstd::arithmetic::div_mod::lemma_div_pos_is_pos(n, 1_000_000);
    } else {
        let m = dt * (v - f) * 1000;
        assert(n == -m) by (nonlinear_arith)
            requires
                n == dt * (f * 1000 - v * 1000),
                m == dt * (v - f) * 1000,
        ;
        assert(0 <= dt * (v - f) <= 1000 * (v - f)) by (nonlinear_arith)
            requires
                f <= v,
                0 <= dt <= 1000,
        ;
        assert(0 <= m <= 1_000_000 * (v - f)) by (nonlinear_arith)
            requires
                m == dt * (v - f) * 1000,
                0 <= dt * (v - f) <= 1000 * (v - f),
        ;
        vstd::arithmetic::div_mod::lemma_div_is_ordered(m, 1_000_000 * (v - f), 1_000_000);
        vstd::arithmetic::div_mod::lemma_div_multiples_vanish(v - f, 1_000_000);
        vstd::arithmetic::div_mod::lemma_div_pos_is_pos(m, 1_000_000);
    }
}

/// Under a constant rightward push from rest or below terminal velocity,
/// each step moves the velocity toward `force / drag` and never past it.
pub proof fn lemma_velocity_approaches_terminal(v: int, dt: int)
    requires
        0 <= v <= terminal_velocity(PUSH_FORCE as int),
        0 <= dt <= MAX_STEP_MS,
    ensures
        v <= velocity_after(v, PUSH_FORCE as int, dt) <= terminal_velocity(PUSH_FORCE as int),
{
    lemma_velocity_step(v, PUSH_FORCE as int, dt);
}

proof fn lemma_integrated_wf(p: MBat, dt_ms: int)
    requires
        p.wf(),
        0 <= dt_ms <= MAX_STEP_MS,
    ensures
        integrated(p, dt_ms).wf(),
{
    lemma_velocity_step(p.v as int, p.f as int, dt_ms);
    let v1 = velocity_after(p.v as int, p.f as int, dt_ms);
    assert(-100_000_000 <= v1 * dt_ms <= 100_000_000) by (nonlinear_arith)
        requires
            -100_000 <= v1 <= 100_000,
            0 <= dt_ms <= 1000,
    ;
    let n = v1 * dt_ms;
    if n >= 0 {
        vstd::arithmetic::div_mod::lemma_div_is_ordered(n, 100_000_000, 1000);
        vstd::arithmetic::div_mod::lemma_div_pos_is_pos(n, 1000);
    } else {
        vstd::arithmetic::div_mod::lemma_div_is_ordered(-n, 100_000_000, 1000);
        vstd::arithmetic::div_mod::lemma_div_pos_is_pos(-n, 1000);
    }
    if v1 >= 0 {
        vstd::arithmetic::div_mod::lemma_div_is_ordered(v1 * 7, 700_000, 10);
        vstd::arithmetic::div_mod::lemma_div_pos_is_pos(v1 * 7, 10);
    } else {
        vstd::arithmetic::div_mod::lemma_div_is_ordered(-(v1 * 7), 700_000, 10);
        vstd::arithmetic::div_mod::lemma_div_pos_is_pos(-(v1 * 7), 10);
    }
}

/// Whatever the frame, the paddle stays on the field, between
/// `-FIELD_HALF + PADDLE_HALF_WIDTH` and `FIELD_HALF - PADDLE_HALF_WIDTH`,
/// and its speed never exceeds the terminal speed; a step that would cross a
/// wall ends on the wall with the velocity reflected at restitution 0.7
/// (rounded toward zero).
pub proof fn lemma_paddle_stays_on_field(p: MBat, dt_ms: nat)
    requires
        p.wf(),
    ensures
        advanced(p, dt_ms).wf(),
        dt_ms <= MAX_STEP_MS ==> ({
            let v1 = velocity_after(p.v as int, p.f as int, dt_ms as int);
            let x1 = p.x + displacement(v1, dt_ms as int);
            let q = advanced(p, dt_ms);
            &&& (x1 < x_low() ==> q.x == x_low() && q.v == bounce(v1))
            &&& (x1 > x_high() ==> q.x == x_high() && q.v == bounce(v1))
            &&& (x_low() <= x1 <= x_high() ==> q.x == x1 && q.v == v1)
        }),
    decreases dt_ms,
{
    if dt_ms <= MAX_STEP_MS {
        lemma_integrated_wf(p, dt_ms as int);
        lemma_velocity_step(p.v as int, p.f as int, dt_ms as int);
    } else {
        lemma_integrated_wf(p, MAX_STEP_MS as int);
        lemma_paddle_stays_on_field(integrated(p, MAX_STEP_MS as int), (dt_ms - MAX_STEP_MS) as nat);
    }
}

impl MBat {
    /// The paddle's state is in range: centre on the field, speed at most
    /// the terminal speed, force one of the three the controls produce.
    pub open spec fn wf(self) -> bool {
        &&& x_low() <= self.x <= x_high()
        &&& -PUSH_FORCE <= self.v <= PUSH_FORCE
        &&& (self.f == 0 || self.f == PUSH_FORCE || self.f == -PUSH_FORCE)
    }

    pub open spec fn new_spec() -> MBat {
        MBat { x: 0, v: 0, f: 0, last_shot_ms: None }
    }

    /// A paddle at rest at the centre of the field.
    pub fn new() -> (r: MBat)
        ensures
            r.wf(),
            r == MBat::new_spec(),
    {
        MBat { x: 0, v: 0, f: 0, last_shot_ms: None }
    }

    /// The paddle's box.
    pub open spec fn area_spec(self) -> Rect {
        Rect::around_spec(self.x as int, PADDLE_Y as int, PADDLE_HALF_WIDTH as int, PADDLE_HALF_HEIGHT as int)
    }

    pub fn area(&self) -> (r: Rect)
        requires
            self.wf(),
        ensures
            r == self.area_spec(),
    {
        Rect::around(self.x, PADDLE_Y, PADDLE_HALF_WIDTH, PADDLE_HALF_HEIGHT)
    }

    /// Sets the applied force from the held move actions.
    pub fn set_force(&mut self, left: bool, right: bool)
        requires
            old(self).wf(),
        ensures
            final(self).wf(),
            *final(self) == (MBat { f: force_for(left, right) as i64, ..*old(self) }),
    {
        let mut f: i64 = 0;
        if right {
            f = f + PUSH_FORCE;
        }
        if left {
            f = f - PUSH_FORCE;
        }
        self.f = f;
    }

    /// One integration step: velocity from force and drag, then position
    /// from velocity; a position past a wall is put back on the wall and
    /// the velocity reflected with restitution 0.7.
    pub fn integrate(&mut self, dt_ms: u32)
        requires
            old(self).wf(),
            dt_ms <= MAX_STEP_MS,
        ensures
            final(self).wf(),
            *final(self) == integrated(*old(self), dt_ms as int),
    {
        proof {
            lemma_velocity_step(self.v as int, self.f as int, dt_ms as int);
        }
        let n: i64 = (dt_ms as i64) * (self.f * 1000 - self.v * DRAG_MILLI);
        let dv: i64 = if n >= 0 {
            n / (1000 * MASS_MILLI)
        } else {
            -((-n) / (1000 * MASS_MILLI))
        };
        let v1: i64 = self.v + dv;
        let dx: i64 = scaled_by_time(v1, dt_ms);
        proof {
            assert(-100_000 <= dx <= 100_000) by (nonlinear_arith)
                requires
                    -100_000 <= v1 <= 100_000,
                    0 <= dt_ms <= 1000,
                    dx == displacement(v1 as int, dt_ms as int),
            {
                assert(-100_000_000 <= v1 * dt_ms <= 100_000_000) by (nonlinear_arith)
                    requires
                        -100_000 <= v1 <= 100_000,
                        0 <= dt_ms <= 1000,
                ;
            }
        }
        let x1: i64 = self.x + dx;
        let lo: i64 = -FIELD_HALF + PADDLE_HALF_WIDTH;
        let hi: i64 = FIELD_HALF - PADDLE_HALF_WIDTH;
        if x1 < lo || x1 > hi {
            let m: i64 = if v1 >= 0 {
                (v1 * 7) / 10
            } else {
                -(((-v1) * 7) / 10)
            };
            self.x = if x1 < lo { lo } else { hi };
            self.v = -m;
        } else {
            self.x = x1;
            self.v = v1;
        }
    }

    /// Integrates over a frame of `dt_ms`, cut into slices of at most
    /// `MAX_STEP_MS`.
    pub fn advance(&mut self, dt_ms: u32)
        requires
            old(self).wf(),
        ensures
            final(self).wf(),
            *final(self) == advanced(*old(self), dt_ms as nat),
    {
        let mut rem: u32 = dt_ms;
        while rem > MAX_STEP_MS
            invariant
                self.wf(),
                advanced(*self, rem as nat) == advanced(*old(self), dt_ms as nat),
            decreases rem,
        {
            self.integrate(MAX_STEP_MS);
            rem = rem - MAX_STEP_MS;
        }
        self.integrate(rem);
    }

    /// Whether the paddle may fire at play time `now_ms`: never fired yet,
    /// or more than `SHOT_DELAY_MS` since the last shot.
    pub open spec fn can_shoot(self, now_ms: int) -> bool {
        match self.last_shot_ms {
            None => true,
            Some(t) => now_ms > t + SHOT_DELAY_MS,
        }
    }

    /// The shot the paddle fires: just above it, moving up.
    pub open spec fn shot_spec(self) -> ShootEvent {
        ShootEvent {
            x: self.x,
            y: (PADDLE_Y + PADDLE_SHOT_OFFSET) as i64,
            vx: 0,
            vy: PADDLE_SHOT_SPEED,
            alien: false,
        }
    }

    /// Fires if the shot delay has passed, recording the time of the shot.
    pub fn try_shoot(&mut self, now_ms: u64) -> (r: Option<ShootEvent>)
        requires
            old(self).wf(),
        ensures
            final(self).wf(),
            old(self).can_shoot(now_ms as int) ==> r == Some(old(self).shot_spec())
                && *final(self) == (MBat { last_shot_ms: Some(now_ms), ..*old(self) }),
            !old(self).can_shoot(now_ms as int) ==> r.is_none() && *final(self) == *old(self),
    {
        let ready = match self.last_shot_ms {
            None => true,
            Some(t) => now_ms >= t && now_ms - t > SHOT_DELAY_MS,
        };
        if ready {
            self.last_shot_ms = Some(now_ms);
            Some(ShootEvent::new(self.x, PADDLE_Y + PADDLE_SHOT_OFFSET, 0, PADDLE_SHOT_SPEED, false))
        } else {
            None
        }
    }
}

} // verus!

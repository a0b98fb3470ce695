use vstd::prelude::*;
use rand::rngs::StdRng;
use crate::combat::{resolve_collisions, retire, resolved, rewarded, visible_only};
use crate::pacing::{add_score, score_after, SHOT_COST, DECAY_PER_SECOND};
use crate::paddle::{MBat, advanced, force_for};
use crate::geometry::{FIELD_HALF, VIEW_HALF_HEIGHT};
use crate::projectile::{MBullet, ShootEvent, bullet_of, flown, spawnable, SPEED_LIMIT};
use crate::rng::{seeded, draw_coin, draw_index};
use crate::state::{GameState, evaluate, outcome};
use crate::swarm::{Swarm, SwarmView, moved, decided, live_count, LOSE_LINE};

verus! {

/// Time between two score decays.
pub const DECAY_INTERVAL_MS: u64 = 1000;

/// The input facts of one update: move actions and shoot as held, the
/// others as just pressed.
#[derive(Clone, Copy, Debug, PartialEq, Eq, Default)]
pub struct Input {
    pub move_left: bool,
    pub move_right: bool,
    pub shoot: bool,
    pub pause: bool,
    pub close: bool,
    pub quit: bool,
}

/// One play session and everything it owns.
pub struct Session {
    pub state: GameState,
    pub swarm: Swarm,
    pub paddle: MBat,
    pub bullets: Vec<MBullet>,
    pub score: u64,
    pub clock_ms: u64,
    pub last_decay_ms: u64,
    pub rng: StdRng,
}

/// The play clock after `dt_ms` more of play, saturating.
pub open spec fn clock_after(clock: int, dt_ms: int) -> int {
    if clock + dt_ms > u64::MAX { u64::MAX as int } else { clock + dt_ms }
}

/// The state a menu action leads to: quit leaves any menu, close or pause
/// resumes from the pause menu, the start menu gives way to play at once.
pub open spec fn menu_transition(s: GameState, input: Input) -> GameState {
    if input.quit {
        GameState::Idle
    } else {
        match s {
            GameState::Starting => GameState::Playing,
            GameState::Paused => if input.pause || input.close { GameState::Playing } else { s },
            _ => s,
        }
    }
}

/// What a session holds, as mathematical values (the random generator
/// aside).
pub ghost struct SessionView {
    pub state: GameState,
    pub swarm: SwarmView,
    pub paddle: MBat,
    pub bullets: Seq<MBullet>,
    pub score: int,
    pub clock_ms: int,
    pub last_decay_ms: int,
}

impl View for Session {
    type V = SessionView;

    open spec fn view(&self) -> SessionView {
        SessionView {
            state: self.state,
            swarm: self.swarm@,
            paddle: self.paddle,
            bullets: self.bullets@,
            score: self.score as int,
            clock_ms: self.clock_ms as int,
            last_decay_ms: self.last_decay_ms as int,
        }
    }
}

/// Every projectile after `dt_ms` of flight.
pub open spec fn flown_all(bs: Seq<MBullet>, dt_ms: int) -> Seq<MBullet> {
    bs.map_values(|b: MBullet| flown(b, dt_ms))
}

/// The projectiles that shot requests spawn, in order; a request that
/// cannot be honoured spawns nothing.
pub open spec fn spawned(reqs: Seq<ShootEvent>) -> Seq<MBullet>
    decreases reqs.len(),
{
    if reqs.len() == 0 {
        Seq::empty()
    } else if spawnable(reqs.last()) {
        spawned(reqs.drop_last()).push(bullet_of(reqs.last()))
    } else {
        spawned(reqs.drop_last())
    }
}

/// Whether the score decays at play time `now`.
pub open spec fn decays(last_decay: int, now: int) -> bool {
    now >= last_decay && now - last_decay > DECAY_INTERVAL_MS
}

/// The session after one update of play (see `Session::step`).
pub open spec fn played(v: SessionView, input: Input, dt_ms: int, coin: bool, pick: int) -> SessionView {
    let glided = advanced(MBat { f: force_for(input.move_left, input.move_right) as i64, ..v.paddle }, dt_ms as nat);
    let fire = input.shoot && glided.can_shoot(v.clock_ms);
    let armed = if fire { MBat { last_shot_ms: Some(v.clock_ms as u64), ..glided } } else { glided };
    let own: Seq<ShootEvent> = if fire { seq![glided.shot_spec()] } else { Seq::empty() };
    let score1 = if fire { score_after(v.score, -SHOT_COST) } else { v.score };
    let now = clock_after(v.clock_ms, dt_ms);
    let (sw, shot) = decided(moved(v.swarm, now), now, armed.x as int, coin, pick);
    let reqs = match shot {
        Some(e) => own.push(e),
        None => own,
    };
    let (ts, kept, kills, struck) = resolved(sw.targets, sw.offset_x, sw.offset_y, armed.area_spec(),
        flown_all(v.bullets, dt_ms));
    let score2 = rewarded(score1, kills as int);
    let decay = decays(v.last_decay_ms, now);
    SessionView {
        state: outcome(live_count(ts) as int, struck, sw.area.min_y as int),
        swarm: SwarmView { targets: ts, ..sw },
        paddle: armed,
        bullets: visible_only(kept) + spawned(reqs),
        score: if decay { score_after(score2, -DECAY_PER_SECOND) } else { score2 },
        clock_ms: now,
        last_decay_ms: if decay { now } else { v.last_decay_ms },
    }
}

/// The session after leaving: back to `Idle`, with nothing on the field.
pub open spec fn left(v: SessionView) -> SessionView {
    SessionView {
        state: GameState::Idle,
        swarm: Swarm::empty_view(),
        paddle: MBat::new_spec(),
        bullets: Seq::empty(),
        ..v
    }
}

/// The session after one update (see `Session::step`).
pub open spec fn stepped(v: SessionView, input: Input, dt_ms: int, coin: bool, pick: int) -> SessionView {
    match v.state {
        GameState::Idle => v,
        GameState::Playing => if input.pause {
            SessionView { state: GameState::Paused, ..v }
        } else {
            played(v, input, dt_ms, coin, pick)
        },
        _ => if input.quit {
            left(v)
        } else {
            SessionView { state: menu_transition(v.state, input), ..v }
        },
    }
}

impl Session {
    pub open spec fn wf(self) -> bool {
        &&& self.swarm.wf()
        &&& self.paddle.wf()
        &&& forall|k: int| 0 <= k < self.bullets@.len() ==> (#[trigger] self.bullets@[k]).wf()
    }

    /// No session yet: nothing on the field.
    pub fn new(seed: u64) -> (r: Session)
        ensures
            r.wf(),
            r@ == (SessionView {
                state: GameState::Idle,
                swarm: Swarm::empty_view(),
                paddle: MBat::new_spec(),
                bullets: Seq::empty(),
                score: 0,
                clock_ms: 0,
                last_decay_ms: 0,
            }),
    {
        Session {
            state: GameState::Idle,
            swarm: Swarm::empty(),
            paddle: MBat::new(),
            bullets: Vec::new(),
            score: 0,
            clock_ms: 0,
            last_decay_ms: 0,
            rng: seeded(seed),
        }
    }

    /// The host's signal to start a session: from `Idle`, sets up the full
    /// swarm and a paddle at rest, clears projectiles, score and clock, and
    /// enters `Starting`. In any other state it does nothing.
    pub fn enter_game(&mut self)
        requires
            old(self).wf(),
        ensures
            final(self).wf(),
            old(self).state == GameState::Idle ==> final(self)@ == (SessionView {
                state: GameState::Starting,
                swarm: Swarm::spawn_view(),
                paddle: MBat::new_spec(),
                bullets: Seq::empty(),
                score: 0,
                clock_ms: 0,
                last_decay_ms: 0,
            }),
            old(self).state != GameState::Idle ==> final(self)@ == old(self)@,
    {
        if self.state != GameState::Idle {
            return;
        }
        self.swarm = Swarm::spawn();
        self.paddle = MBat::new();
        self.bullets = Vec::new();
        self.score = 0;
        self.clock_ms = 0;
        self.last_decay_ms = 0;
        self.state = GameState::Starting;
    }
}

impl Session {
    /// Leaves the session: back to `Idle`, with the swarm, the projectiles
    /// and the paddle's state discarded.
    fn leave(&mut self)
        requires
            old(self).wf(),
        ensures
            final(self).wf(),
            final(self)@ == left(old(self)@),
    {
        self.swarm = Swarm::empty();
        self.paddle = MBat::new();
        self.bullets = Vec::new();
        self.state = GameState::Idle;
    }

    /// One update of play, in order: paddle force and physics, the paddle's
    /// shot, the play clock, the swarm's movement step and shot decision,
    /// projectile flight, collisions, retirement of projectiles out of view,
    /// score decay, the shots requested in this update entering the field,
    /// and the evaluation of the outcome.
    fn play(&mut self, input: Input, dt_ms: u32, coin: bool, pick: usize)
        requires
            old(self).wf(),
            old(self).state == GameState::Playing,
        ensures
            final(self).wf(),
            final(self)@ == played(old(self)@, input, dt_ms as int, coin, pick as int),
    {
        let ghost v = self@;
        let mut requests: Vec<ShootEvent> = Vec::new();
        self.paddle.set_force(input.move_left, input.move_right);
        self.paddle.advance(dt_ms);
        if input.shoot {
            match self.paddle.try_shoot(self.clock_ms) {
                Some(e) => {
                    requests.push(e);
                    self.score = add_score(self.score, -SHOT_COST);
                },
                None => {},
            }
        }
        let now: u64 = self.clock_ms.saturating_add(dt_ms as u64);
        self.clock_ms = now;
        self.swarm.move_tick(now);
        match self.swarm.maybe_shoot(now, self.paddle.x, coin, pick) {
            Some(e) => {
                requests.push(e);
            },
            None => {},
        }
        let mut flying: Vec<MBullet> = Vec::new();
        let mut i: usize = 0;
        while i < self.bullets.len()
            invariant
                self.wf(),
                self.bullets@ == v.bullets,
                i <= self.bullets@.len(),
                flying@.len() == i,
                forall|k: int| 0 <= k < i ==> (#[trigger] flying@[k]).in_flight()
                    && flying@[k] == flown(self.bullets@[k], dt_ms as int),
            decreases self.bullets@.len() - i,
        {
            let mut b = self.bullets[i];
            b.fly(dt_ms);
            flying.push(b);
            i = i + 1;
        }
        assert(flying@ =~= flown_all(v.bullets, dt_ms as int));
        let paddle_box = self.paddle.area();
        let (kept, struck) = resolve_collisions(&mut self.swarm, flying, paddle_box, &mut self.score);
        let mut bullets = retire(kept);
        if now >= self.last_decay_ms && now - self.last_decay_ms > DECAY_INTERVAL_MS {
            self.score = add_score(self.score, -DECAY_PER_SECOND);
            self.last_decay_ms = now;
        }
        let ghost shown = bullets@;
        let mut k: usize = 0;
        while k < requests.len()
            invariant
                k <= requests@.len(),
                bullets@ == shown + spawned(requests@.take(k as int)),
                forall|m: int| 0 <= m < bullets@.len() ==> (#[trigger] bullets@[m]).wf(),
            decreases requests@.len() - k,
        {
            assert(requests@.take(k + 1).drop_last() == requests@.take(k as int));
            assert(requests@.take(k + 1).last() == requests@[k as int]);
            let e = requests[k];
            let visible = -FIELD_HALF <= e.x && e.x <= FIELD_HALF
                && -VIEW_HALF_HEIGHT <= e.y && e.y <= VIEW_HALF_HEIGHT;
            let slow = -SPEED_LIMIT <= e.vx && e.vx <= SPEED_LIMIT
                && -SPEED_LIMIT <= e.vy && e.vy <= SPEED_LIMIT;
            if visible && slow {
                bullets.push(MBullet::spawn(e));
                assert(bullets@ == shown + spawned(requests@.take(k + 1)));
            }
            k = k + 1;
        }
        assert(requests@.take(k as int) == requests@);
        self.bullets = bullets;
        let live = self.swarm.live_targets();
        self.state = evaluate(live, struck, self.swarm.area.min_y);
    }

    /// One update with the swarm's random draws given: `coin` decides
    /// whether a shot opportunity is taken, `pick` which target in range
    /// fires. Returns whether the session asks its host to leave the game.
    ///
    /// In a menu state the update only handles the menu's actions (see
    /// `menu_transition`); quitting discards the session. While playing, the
    /// pause action pauses and nothing else happens; otherwise one update of
    /// play runs (see `played`). In `Idle` nothing happens.
    pub fn step(&mut self, input: Input, dt_ms: u32, coin: bool, pick: usize) -> (exit: bool)
        requires
            old(self).wf(),
        ensures
            final(self).wf(),
            final(self)@ == stepped(old(self)@, input, dt_ms as int, coin, pick as int),
            exit == (old(self).state.shows_menu_spec() && input.quit),
    {
        match self.state {
            GameState::Idle => false,
            GameState::Playing => {
                if input.pause {
                    self.state = GameState::Paused;
                } else {
                    self.play(input, dt_ms, coin, pick);
                }
                false
            },
            _ => {
                if input.quit {
                    self.leave();
                    true
                } else {
                    match self.state {
                        GameState::Starting => {
                            self.state = GameState::Playing;
                        },
                        GameState::Paused => {
                            if input.pause || input.close {
                                self.state = GameState::Playing;
                            }
                        },
                        _ => {},
                    }
                    false
                }
            },
        }
    }

    /// One update, with the swarm's random draws taken from the session's
    /// own generator: the result is that of `step` for some draws.
    pub fn tick(&mut self, input: Input, dt_ms: u32) -> (exit: bool)
        requires
            old(self).wf(),
        ensures
            final(self).wf(),
            exists|coin: bool, pick: usize| final(self)@ == stepped(old(self)@, input, dt_ms as int, coin, pick as int),
            exit == (old(self).state.shows_menu_spec() && input.quit),
    {
        let ghost v = self@;
        let coin = draw_coin(&mut self.rng);
        let pick = draw_index(&mut self.rng);
        assert(self@ == v);
        let exit = self.step(input, dt_ms, coin, pick);
        assert(self@ == stepped(v, input, dt_ms as int, coin, pick as int));
        exit
    }
}

/// Once no target is left, the next update of play yields `Won`, and the
/// swarm neither moves nor changes: only its shot timer may restart.
pub proof fn lemma_cleared_swarm_wins(v: SessionView, input: Input, dt_ms: int, coin: bool, pick: int)
    requires
        v.state == GameState::Playing,
        !input.pause,
        live_count(v.swarm.targets) == 0,
    ensures
        ({
            let r = stepped(v, input, dt_ms, coin, pick);
            &&& r.state == GameState::Won
            &&& r.swarm == (SwarmView { last_shot_ms: r.swarm.last_shot_ms, ..v.swarm })
        }),
{
    crate::swarm::lemma_live_extent_none(v.swarm.targets);
    let glided = advanced(MBat { f: force_for(input.move_left, input.move_right) as i64, ..v.paddle }, dt_ms as nat);
    let fire = input.shoot && glided.can_shoot(v.clock_ms);
    let armed = if fire { MBat { last_shot_ms: Some(v.clock_ms as u64), ..glided } } else { glided };
    let now = clock_after(v.clock_ms, dt_ms);
    let (sw, shot) = decided(moved(v.swarm, now), now, armed.x as int, coin, pick);
    crate::combat::lemma_nothing_to_hit(sw.targets, sw.offset_x, sw.offset_y, armed.area_spec(),
        flown_all(v.bullets, dt_ms));
}

/// While targets remain after an update of play, a swarm box that has
/// reached `LOSE_LINE` makes that update yield `Lost`.
pub proof fn lemma_landed_swarm_loses(v: SessionView, input: Input, dt_ms: int, coin: bool, pick: int)
    requires
        v.state == GameState::Playing,
        !input.pause,
    ensures
        ({
            let r = stepped(v, input, dt_ms, coin, pick);
            live_count(r.swarm.targets) > 0 && r.swarm.area.min_y <= LOSE_LINE ==> r.state == GameState::Lost
        }),
{
}

/// The score is never negative: every update keeps it at zero or above.
pub proof fn lemma_score_never_negative(v: SessionView, input: Input, dt_ms: int, coin: bool, pick: int)
    requires
        v.score >= 0,
    ensures
        stepped(v, input, dt_ms, coin, pick).score >= 0,
{
}

/// A swarm shot that, after this update's flight, lies in the paddle's box
/// makes the update yield `Lost`, unless the same update cleared the swarm.
pub proof fn lemma_struck_paddle_loses(v: SessionView, input: Input, dt_ms: int, coin: bool, pick: int, k: int)
    requires
        v.state == GameState::Playing,
        !input.pause,
        0 <= k < v.bullets.len(),
        v.bullets[k].alien,
        ({
            let r = stepped(v, input, dt_ms, coin, pick);
            let b = flown(v.bullets[k], dt_ms);
            r.paddle.area_spec().holds(b.x as int, b.y as int)
        }),
    ensures
        ({
            let r = stepped(v, input, dt_ms, coin, pick);
            live_count(r.swarm.targets) > 0 ==> r.state == GameState::Lost
        }),
{
    let glided = advanced(MBat { f: force_for(input.move_left, input.move_right) as i64, ..v.paddle }, dt_ms as nat);
    let fire = input.shoot && glided.can_shoot(v.clock_ms);
    let armed = if fire { MBat { last_shot_ms: Some(v.clock_ms as u64), ..glided } } else { glided };
    let now = clock_after(v.clock_ms, dt_ms);
    let (sw, shot) = decided(moved(v.swarm, now), now, armed.x as int, coin, pick);
    let fl = flown_all(v.bullets, dt_ms);
    assert(fl[k] == flown(v.bullets[k], dt_ms));
    crate::combat::lemma_strike_is_kept(sw.targets, sw.offset_x, sw.offset_y, armed.area_spec(), fl, k);
}

} // verus!

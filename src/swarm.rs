use vstd::prelude::*;
use crate::geometry::{Rect, FIELD_HALF};
use crate::pacing::{shot_due, shot_is_due};
use crate::projectile::ShootEvent;

verus! {

pub const COLUMNS: usize = 11;

pub const ROWS: usize = 6;

/// Side of a target's square.
pub const TARGET_SIZE: i64 = 52_380;

pub const TARGET_HALF: i64 = 26_190;

/// Distance between the centres of neighbouring columns and rows.
pub const COLUMN_PITCH: i64 = 104_760;

pub const ROW_PITCH: i64 = 89_524;

/// Centre of the top-left target, relative to the swarm's origin.
pub const FIRST_X: i64 = -523_810;

pub const FIRST_Y: i64 = 223_810;

/// Size of one movement step: a third of a target's side.
pub const START_STEP: i64 = 17_460;

/// Where the swarm's origin starts.
pub const START_X: i64 = -90_000;

pub const START_Y: i64 = 150_000;

/// The swarm has landed once its box reaches this height.
pub const LOSE_LINE: i64 = -350_000;

/// Minimum time between two movement steps.
pub const MOVE_INTERVAL_MS: u64 = 1000;

/// A target may fire only if it is horizontally closer than this to the paddle.
pub const SHOOT_RANGE: i64 = 200_000;

/// Speed of a swarm shot, downward.
pub const SWARM_SHOT_SPEED: i64 = 150_000;

/// Bound on the swarm's offset, far beyond the playfield.
pub const OFFSET_LIMIT: i64 = 1_000_000_000_000;

/// Bound on a target's position relative to the swarm's origin.
pub const LOCAL_LIMIT: i64 = 1_000_000;

/// A target: centre relative to the swarm's origin, and whether it is still
/// in play. Removed targets keep their slot, so indices stay valid.
#[derive(Clone, Copy, Debug, PartialEq, Eq)]
pub struct Target {
    pub x: i64,
    pub y: i64,
    pub alive: bool,
}

/// The target in slot `i` of a freshly spawned grid.
pub open spec fn grid_target(i: int) -> Target {
    Target {
        x: (FIRST_X + (i % COLUMNS as int) * COLUMN_PITCH) as i64,
        y: (FIRST_Y - (i / COLUMNS as int) * ROW_PITCH) as i64,
        alive: true,
    }
}

/// An extent over the integers: `(min_x, min_y, max_x, max_y)`.
pub type Extent = (int, int, int, int);

pub open spec fn union(a: Extent, b: Extent) -> Extent {
    (
        if a.0 <= b.0 { a.0 } else { b.0 },
        if a.1 <= b.1 { a.1 } else { b.1 },
        if a.2 >= b.2 { a.2 } else { b.2 },
        if a.3 >= b.3 { a.3 } else { b.3 },
    )
}

pub open spec fn shift(a: Extent, dx: int, dy: int) -> Extent {
    (a.0 + dx, a.1 + dy, a.2 + dx, a.3 + dy)
}

pub open spec fn target_extent(t: Target) -> Extent {
    (t.x - TARGET_HALF, t.y - TARGET_HALF, t.x + TARGET_HALF, t.y + TARGET_HALF)
}

/// The union of the boxes of the live targets, relative to the swarm's
/// origin; `None` when no target is alive.
pub open spec fn live_extent(ts: Seq<Target>) -> Option<Extent>
    decreases ts.len(),
{
    if ts.len() == 0 {
        None
    } else {
        let rest = live_extent(ts.drop_last());
        let t = ts.last();
        if !t.alive {
            rest
        } else {
            match rest {
                None => Some(target_extent(t)),
                Some(r) => Some(union(r, target_extent(t))),
            }
        }
    }
}

/// The number of live targets.
pub open spec fn live_count(ts: Seq<Target>) -> nat
    decreases ts.len(),
{
    if ts.len() == 0 {
        0
    } else {
        live_count(ts.drop_last()) + if ts.last().alive { 1nat } else { 0nat }
    }
}

pub open spec fn rect_of(e: Extent) -> Rect {
    Rect { min_x: e.0 as i64, min_y: e.1 as i64, max_x: e.2 as i64, max_y: e.3 as i64 }
}

pub open spec fn extent_of(r: Rect) -> Extent {
    (r.min_x as int, r.min_y as int, r.max_x as int, r.max_y as int)
}

/// The movement rule: `(offset_x, offset_y, step)` after one movement step,
/// given the box measured at the start of the step. Moving right, the swarm
/// goes on right while the box's right edge would not pass the wall less a
/// step, and otherwise moves down by the step and turns; moving left
/// is symmetric.
pub open spec fn step_rule(area: Extent, ox: int, oy: int, step: int) -> (int, int, int) {
    if step > 0 {
        if area.2 <= FIELD_HALF - step {
            (ox + step, oy, step)
        } else {
            (ox, oy - step, -step)
        }
    } else {
        if area.0 >= -FIELD_HALF - step {
            (ox + step, oy, step)
        } else {
            (ox, oy + step, -step)
        }
    }
}

pub open spec fn abs(x: int) -> int {
    if x < 0 { -x } else { x }
}

/// Indices of the live targets within `SHOOT_RANGE` of the paddle
/// horizontally, among the first `ts.len()` slots, in slot order.
pub open spec fn shooters(ts: Seq<Target>, ox: int, paddle_x: int) -> Seq<int>
    decreases ts.len(),
{
    if ts.len() == 0 {
        Seq::empty()
    } else {
        let rest = shooters(ts.drop_last(), ox, paddle_x);
        let t = ts.last();
        if t.alive && abs(t.x + ox - paddle_x) < SHOOT_RANGE {
            rest.push(ts.len() - 1)
        } else {
            rest
        }
    }
}

/// The shot fired by target `t` of a swarm at offset `(ox, oy)`: from just
/// below the target, moving down.
pub open spec fn shot_from(t: Target, ox: int, oy: int) -> ShootEvent {
    ShootEvent {
        x: (t.x + ox) as i64,
        y: (t.y + oy - TARGET_HALF) as i64,
        vx: 0,
        vy: (-SWARM_SHOT_SPEED) as i64,
        alien: true,
    }
}

/// The first live target, in slot order among the first `n`, whose box
/// (at offset `(ox, oy)`) holds the point `(x, y)`.
pub open spec fn first_hit(ts: Seq<Target>, n: int, ox: int, oy: int, x: int, y: int) -> Option<int>
    decreases n,
{
    if n <= 0 {
        None
    } else {
        match first_hit(ts, n - 1, ox, oy, x, y) {
            Some(j) => Some(j),
            None => {
                let t = ts[n - 1];
                if t.alive && target_extent(t).0 + ox <= x <= target_extent(t).2 + ox
                    && target_extent(t).1 + oy <= y <= target_extent(t).3 + oy {
                    Some(n - 1)
                } else {
                    None
                }
            },
        }
    }
}

pub(crate) proof fn lemma_first_hit_range(ts: Seq<Target>, n: int, ox: int, oy: int, x: int, y: int)
    ensures
        first_hit(ts, n, ox, oy, x, y) matches Some(j) ==> 0 <= j < n && ts[j].alive,
    decreases n,
{
    if n > 0 {
        lemma_first_hit_range(ts, n - 1, ox, oy, x, y);
    }
}

proof fn lemma_first_hit_stable(ts: Seq<Target>, m: int, n: int, ox: int, oy: int, x: int, y: int)
    requires
        m <= n,
        first_hit(ts, m, ox, oy, x, y) is Some,
    ensures
        first_hit(ts, n, ox, oy, x, y) == first_hit(ts, m, ox, oy, x, y),
    decreases n - m,
{
    if m < n {
        lemma_first_hit_stable(ts, m, n - 1, ox, oy, x, y);
    }
}

proof fn lemma_shooters_range(ts: Seq<Target>, ox: int, paddle_x: int)
    ensures
        forall|k: int| 0 <= k < shooters(ts, ox, paddle_x).len() ==>
            0 <= #[trigger] shooters(ts, ox, paddle_x)[k] < ts.len(),
    decreases ts.len(),
{
    if ts.len() > 0 {
        let r = ts.drop_last();
        lemma_shooters_range(r, ox, paddle_x);
        let rest = shooters(r, ox, paddle_x);
        assert forall|k: int| 0 <= k < shooters(ts, ox, paddle_x).len() implies
            0 <= #[trigger] shooters(ts, ox, paddle_x)[k] < ts.len() by {
            if k < rest.len() {
                assert(shooters(ts, ox, paddle_x)[k] == rest[k]);
            }
        }
    }
}

pub(crate) proof fn lemma_live_extent_none(ts: Seq<Target>)
    ensures
        live_extent(ts).is_none() <==> live_count(ts) == 0,
    decreases ts.len(),
{
    if ts.len() > 0 {
        lemma_live_extent_none(ts.drop_last());
    }
}

proof fn lemma_live_extent_bounded(ts: Seq<Target>)
    requires
        forall|i: int| 0 <= i < ts.len() ==> -LOCAL_LIMIT <= #[trigger] ts[i].x <= LOCAL_LIMIT
            && -LOCAL_LIMIT <= ts[i].y <= LOCAL_LIMIT,
    ensures
        live_extent(ts) matches Some(e) ==> -LOCAL_LIMIT - TARGET_HALF <= e.0 <= e.2
            <= LOCAL_LIMIT + TARGET_HALF && -LOCAL_LIMIT - TARGET_HALF <= e.1 <= e.3
            <= LOCAL_LIMIT + TARGET_HALF,
        live_extent(ts).is_none() <==> live_count(ts) == 0,
    decreases ts.len(),
{
    if ts.len() > 0 {
        let r = ts.drop_last();
        assert forall|i: int| 0 <= i < r.len() implies -LOCAL_LIMIT <= #[trigger] r[i].x
            <= LOCAL_LIMIT && -LOCAL_LIMIT <= r[i].y <= LOCAL_LIMIT by {
            assert(r[i] == ts[i]);
        }
        lemma_live_extent_bounded(r);
    }
}

/// The swarm: its targets, its origin's offset, the current step (its sign
/// is the direction of travel), the box measured at the last movement step,
/// and the play times of its last movement and of its last shot opportunity.
#[derive(Debug)]
pub struct Swarm {
    pub targets: Vec<Target>,
    pub offset_x: i64,
    pub offset_y: i64,
    pub step: i64,
    pub area: Rect,
    pub last_move_ms: u64,
    pub last_shot_ms: u64,
}

/// What a swarm holds, as mathematical values.
pub ghost struct SwarmView {
    pub targets: Seq<Target>,
    pub offset_x: int,
    pub offset_y: int,
    pub step: int,
    pub area: Rect,
    pub last_move_ms: int,
    pub last_shot_ms: int,
}

impl View for Swarm {
    type V = SwarmView;

    open spec fn view(&self) -> SwarmView {
        SwarmView {
            targets: self.targets@,
            offset_x: self.offset_x as int,
            offset_y: self.offset_y as int,
            step: self.step as int,
            area: self.area,
            last_move_ms: self.last_move_ms as int,
            last_shot_ms: self.last_shot_ms as int,
        }
    }
}

/// The swarm after a movement step at play time `now_ms` (see `move_tick`).
pub open spec fn moved(s: SwarmView, now_ms: int) -> SwarmView {
    match live_extent(s.targets) {
        None => s,
        Some(l) => if now_ms < s.last_move_ms + MOVE_INTERVAL_MS {
            s
        } else {
            let e = shift(l, s.offset_x, s.offset_y);
            let (ox, oy, st) = step_rule(e, s.offset_x, s.offset_y, s.step);
            let within = -OFFSET_LIMIT <= ox <= OFFSET_LIMIT && -OFFSET_LIMIT <= oy <= OFFSET_LIMIT;
            SwarmView {
                area: rect_of(e),
                last_move_ms: now_ms,
                offset_x: if within { ox } else { s.offset_x },
                offset_y: if within { oy } else { s.offset_y },
                step: if within { st } else { s.step },
                ..s
            }
        },
    }
}

/// The swarm and the shot after a shot decision at play time `now_ms`
/// with the paddle at `paddle_x` (see `maybe_shoot`).
pub open spec fn decided(s: SwarmView, now_ms: int, paddle_x: int, coin: bool, pick: int) -> (SwarmView, Option<ShootEvent>) {
    if !shot_due(s.last_shot_ms, now_ms) {
        (s, None)
    } else {
        (
            SwarmView { last_shot_ms: now_ms, ..s },
            shot_choice(s.targets, s.offset_x, s.offset_y, paddle_x, coin, pick),
        )
    }
}

/// The swarm with target `j` taken out of play.
pub open spec fn without(s: SwarmView, j: int) -> SwarmView {
    SwarmView { targets: s.targets.update(j, Target { alive: false, ..s.targets[j] }), ..s }
}

impl Swarm {
    pub open spec fn wf(self) -> bool {
        &&& forall|i: int| 0 <= i < self.targets@.len() ==> -LOCAL_LIMIT <= #[trigger] self.targets@[i].x
            <= LOCAL_LIMIT && -LOCAL_LIMIT <= self.targets@[i].y <= LOCAL_LIMIT
        &&& -OFFSET_LIMIT <= self.offset_x <= OFFSET_LIMIT
        &&& -OFFSET_LIMIT <= self.offset_y <= OFFSET_LIMIT
        &&& (self.step == START_STEP || self.step == -START_STEP)
    }

    pub open spec fn live(self) -> nat {
        live_count(self.targets@)
    }

    /// The swarm as it is spawned.
    pub open spec fn spawn_view() -> SwarmView {
        SwarmView {
            targets: Seq::new((COLUMNS * ROWS) as nat, |i: int| grid_target(i)),
            offset_x: START_X as int,
            offset_y: START_Y as int,
            step: START_STEP as int,
            area: Rect { min_x: -640_000i64, min_y: -100_000i64, max_x: 459_980, max_y: 400_000 },
            last_move_ms: 0,
            last_shot_ms: 0,
        }
    }

    /// The full grid, `COLUMNS` by `ROWS`, moving right.
    pub fn spawn() -> (r: Swarm)
        ensures
            r.wf(),
            r@ == Swarm::spawn_view(),
    {
        let mut targets: Vec<Target> = Vec::new();
        let mut i: usize = 0;
        while i < COLUMNS * ROWS
            invariant
                i <= COLUMNS * ROWS,
                targets@.len() == i,
                forall|k: int| 0 <= k < i ==> #[trigger] targets@[k] == grid_target(k),
                forall|k: int| 0 <= k < i ==> -LOCAL_LIMIT <= #[trigger] targets@[k].x <= LOCAL_LIMIT
                    && -LOCAL_LIMIT <= targets@[k].y <= LOCAL_LIMIT,
            decreases COLUMNS * ROWS - i,
        {
            let col: usize = i % COLUMNS;
            let row: usize = i / COLUMNS;
            proof {
                assert(col < 11 && row < 6) by (nonlinear_arith)
                    requires
                        col == i % 11,
                        row == i / 11,
                        i < 66,
                ;
            }
            let t = Target {
                x: FIRST_X + (col as i64) * COLUMN_PITCH,
                y: FIRST_Y - (row as i64) * ROW_PITCH,
                alive: true,
            };
            targets.push(t);
            i = i + 1;
        }
        assert(targets@ =~= Seq::new((COLUMNS * ROWS) as nat, |i: int| grid_target(i)));
        Swarm {
            targets,
            offset_x: START_X,
            offset_y: START_Y,
            step: START_STEP,
            area: Rect { min_x: -640_000, min_y: -100_000, max_x: 459_980, max_y: 400_000 },
            last_move_ms: 0,
            last_shot_ms: 0,
        }
    }

    pub open spec fn empty_view() -> SwarmView {
        SwarmView {
            targets: Seq::empty(),
            offset_x: START_X as int,
            offset_y: START_Y as int,
            step: START_STEP as int,
            area: Rect { min_x: 0, min_y: 0, max_x: 0, max_y: 0 },
            last_move_ms: 0,
            last_shot_ms: 0,
        }
    }

    /// A swarm with no targets, standing for the absence of one.
    pub fn empty() -> (r: Swarm)
        ensures
            r.wf(),
            r@ == Swarm::empty_view(),
            r.live() == 0,
    {
        Swarm {
            targets: Vec::new(),
            offset_x: START_X,
            offset_y: START_Y,
            step: START_STEP,
            area: Rect { min_x: 0, min_y: 0, max_x: 0, max_y: 0 },
            last_move_ms: 0,
            last_shot_ms: 0,
        }
    }

    /// Whether any target is still alive.
    pub fn has_live(&self) -> (r: bool)
        ensures
            r == (self.live() > 0),
    {
        let mut i: usize = 0;
        while i < self.targets.len()
            invariant
                i <= self.targets@.len(),
                live_count(self.targets@.take(i as int)) == 0,
            decreases self.targets@.len() - i,
        {
            assert(self.targets@.take(i + 1).drop_last() == self.targets@.take(i as int));
            if self.targets[i].alive {
                proof {
                    self.lemma_count_prefix_positive(i as int);
                }
                return true;
            }
            i = i + 1;
        }
        assert(self.targets@.take(i as int) == self.targets@);
        false
    }

    proof fn lemma_count_prefix_positive(self, i: int)
        requires
            0 <= i < self.targets@.len(),
            self.targets@[i].alive,
        ensures
            live_count(self.targets@) > 0,
    {
        lemma_count_monotone(self.targets@, i + 1);
        assert(self.targets@.take(i + 1).drop_last() == self.targets@.take(i));
    }

    /// The number of live targets.
    pub fn live_targets(&self) -> (r: usize)
        ensures
            r == self.live(),
    {
        let mut n: usize = 0;
        let mut i: usize = 0;
        while i < self.targets.len()
            invariant
                i <= self.targets@.len(),
                n == live_count(self.targets@.take(i as int)),
                n <= i,
            decreases self.targets@.len() - i,
        {
            assert(self.targets@.take(i + 1).drop_last() == self.targets@.take(i as int));
            if self.targets[i].alive {
                n = n + 1;
            }
            i = i + 1;
        }
        assert(self.targets@.take(i as int) == self.targets@);
        n
    }

    /// The box around the live targets, relative to the swarm's origin.
    pub fn local_extent(&self) -> (r: Option<Rect>)
        requires
            self.wf(),
        ensures
            r == (match live_extent(self.targets@) {
                None => None::<Rect>,
                Some(e) => Some(rect_of(e)),
            }),
            r matches Some(b) ==> Some(extent_of(b)) == live_extent(self.targets@),
    {
        let mut acc: Option<Rect> = None;
        let mut i: usize = 0;
        while i < self.targets.len()
            invariant
                self.wf(),
                i <= self.targets@.len(),
                acc == (match live_extent(self.targets@.take(i as int)) {
                    None => None::<Rect>,
                    Some(e) => Some(rect_of(e)),
                }),
                acc matches Some(b) ==> Some(extent_of(b)) == live_extent(self.targets@.take(i as int)),
            decreases self.targets@.len() - i,
        {
            let ghost pre = self.targets@.take(i as int);
            assert(self.targets@.take(i + 1).drop_last() == pre);
            proof {
                lemma_live_extent_bounded(pre);
            }
            let t = self.targets[i];
            if t.alive {
                let b = Rect {
                    min_x: t.x - TARGET_HALF,
                    min_y: t.y - TARGET_HALF,
                    max_x: t.x + TARGET_HALF,
                    max_y: t.y + TARGET_HALF,
                };
                acc = match acc {
                    None => Some(b),
                    Some(a) => Some(Rect {
                        min_x: if a.min_x <= b.min_x { a.min_x } else { b.min_x },
                        min_y: if a.min_y <= b.min_y { a.min_y } else { b.min_y },
                        max_x: if a.max_x >= b.max_x { a.max_x } else { b.max_x },
                        max_y: if a.max_y >= b.max_y { a.max_y } else { b.max_y },
                    }),
                };
            }
            i = i + 1;
        }
        assert(self.targets@.take(i as int) == self.targets@);
        acc
    }
}


/// The opportunity taken at a shot decision: with `coin` false no shot;
/// otherwise the live target in range of the paddle at position
/// `pick % count` among them, if any, fires.
pub open spec fn shot_choice(ts: Seq<Target>, ox: int, oy: int, paddle_x: int, coin: bool, pick: int) -> Option<ShootEvent> {
    let c = shooters(ts, ox, paddle_x);
    if !coin || c.len() == 0 {
        None
    } else {
        Some(shot_from(ts[c[pick % (c.len() as int)]], ox, oy))
    }
}

/// Each movement step shifts the swarm's box either right or left by exactly
/// the step, keeping the step, or down by the step's magnitude, turning the
/// step around; never both.
pub proof fn lemma_movement_shifts_box(e: Extent, ox: int, oy: int, step: int)
    requires
        step != 0,
    ensures
        ({
            let (ox2, oy2, step2) = step_rule(shift(e, ox, oy), ox, oy, step);
            let before = shift(e, ox, oy);
            let after = shift(e, ox2, oy2);
            (after == shift(before, step, 0) && step2 == step)
                != (after == shift(before, 0, -abs(step)) && step2 == -step)
        }),
{
}

impl Swarm {
    /// A movement step, at most once per `MOVE_INTERVAL_MS` of play time:
    /// the box is measured around the live targets at the current offset,
    /// then the swarm moves by `step_rule` on that box. A swarm with no live
    /// target does nothing. The offset never leaves `OFFSET_LIMIT`: a step
    /// that would take it out is not taken.
    pub fn move_tick(&mut self, now_ms: u64)
        requires
            old(self).wf(),
        ensures
            final(self).wf(),
            final(self)@ == moved(old(self)@, now_ms as int),
    {
        if now_ms < self.last_move_ms || now_ms - self.last_move_ms < MOVE_INTERVAL_MS {
            return;
        }
        let local = self.local_extent();
        proof {
            lemma_live_extent_bounded(self.targets@);
        }
        let l = match local {
            None => {
                return;
            },
            Some(l) => l,
        };
        let area = Rect {
            min_x: l.min_x + self.offset_x,
            min_y: l.min_y + self.offset_y,
            max_x: l.max_x + self.offset_x,
            max_y: l.max_y + self.offset_y,
        };
        self.last_move_ms = now_ms;
        self.area = area;
        let step = self.step;
        let (nx, ny, ns) = if step > 0 {
            if area.max_x <= FIELD_HALF - step {
                (self.offset_x + step, self.offset_y, step)
            } else {
                (self.offset_x, self.offset_y - step, -step)
            }
        } else {
            if area.min_x >= -FIELD_HALF - step {
                (self.offset_x + step, self.offset_y, step)
            } else {
                (self.offset_x, self.offset_y + step, -step)
            }
        };
        if -OFFSET_LIMIT <= nx && nx <= OFFSET_LIMIT && -OFFSET_LIMIT <= ny && ny <= OFFSET_LIMIT {
            self.offset_x = nx;
            self.offset_y = ny;
            self.step = ns;
        }
    }

    /// The index of the first live target whose box holds `(x, y)`.
    pub fn hit_target(&self, x: i64, y: i64) -> (r: Option<usize>)
        requires
            self.wf(),
        ensures
            r matches Some(j) ==> first_hit(self.targets@, self.targets@.len() as int,
                self.offset_x as int, self.offset_y as int, x as int, y as int) == Some(j as int),
            r is None ==> first_hit(self.targets@, self.targets@.len() as int,
                self.offset_x as int, self.offset_y as int, x as int, y as int) is None,
    {
        let mut i: usize = 0;
        while i < self.targets.len()
            invariant
                self.wf(),
                i <= self.targets@.len(),
                first_hit(self.targets@, i as int, self.offset_x as int, self.offset_y as int,
                    x as int, y as int) is None,
            decreases self.targets@.len() - i,
        {
            let t = self.targets[i];
            if t.alive {
                let cx = t.x + self.offset_x;
                let cy = t.y + self.offset_y;
                if cx - TARGET_HALF <= x && x <= cx + TARGET_HALF && cy - TARGET_HALF <= y && y
                    <= cy + TARGET_HALF {
                    proof {
                        lemma_first_hit_stable(self.targets@, i + 1, self.targets@.len() as int,
                            self.offset_x as int, self.offset_y as int, x as int, y as int);
                    }
                    return Some(i);
                }
            }
            i = i + 1;
        }
        None
    }

    /// Removes target `j` from play; its slot stays.
    pub fn kill(&mut self, j: usize)
        requires
            old(self).wf(),
            j < old(self).targets@.len(),
        ensures
            final(self).wf(),
            final(self)@ == without(old(self)@, j as int),
    {
        let t = self.targets[j];
        self.targets.set(j, Target { alive: false, ..t });
        assert(forall|i: int| 0 <= i < self.targets@.len() ==> #[trigger] self.targets@[i].x
            == old(self).targets@[i].x && self.targets@[i].y == old(self).targets@[i].y);
    }

    /// The shot decision, taken when more than the shot threshold has
    /// passed since the last one: the timer restarts, and the target given by
    /// `shot_choice` on `coin` and `pick` fires, if any.
    pub fn maybe_shoot(&mut self, now_ms: u64, paddle_x: i64, coin: bool, pick: usize) -> (r: Option<ShootEvent>)
        requires
            old(self).wf(),
            -FIELD_HALF <= paddle_x <= FIELD_HALF,
        ensures
            final(self).wf(),
            (final(self)@, r) == decided(old(self)@, now_ms as int, paddle_x as int, coin, pick as int),
    {
        if !shot_is_due(self.last_shot_ms, now_ms) {
            return None;
        }
        self.last_shot_ms = now_ms;
        if !coin {
            return None;
        }
        let ghost ox = self.offset_x as int;
        let mut cands: Vec<usize> = Vec::new();
        let mut i: usize = 0;
        while i < self.targets.len()
            invariant
                self.wf(),
                i <= self.targets@.len(),
                -FIELD_HALF <= paddle_x <= FIELD_HALF,
                ox == self.offset_x,
                cands@.len() == shooters(self.targets@.take(i as int), ox, paddle_x as int).len(),
                forall|k: int| 0 <= k < cands@.len() ==> cands@[k] as int
                    == #[trigger] shooters(self.targets@.take(i as int), ox, paddle_x as int)[k],
            decreases self.targets@.len() - i,
        {
            assert(self.targets@.take(i + 1).drop_last() == self.targets@.take(i as int));
            let t = self.targets[i];
            let d = t.x + self.offset_x - paddle_x;
            let near = if d < 0 { -d < SHOOT_RANGE } else { d < SHOOT_RANGE };
            if t.alive && near {
                cands.push(i);
            }
            i = i + 1;
        }
        assert(self.targets@.take(i as int) == self.targets@);
        proof {
            lemma_shooters_range(self.targets@, ox, paddle_x as int);
        }
        if cands.len() == 0 {
            return None;
        }
        let k = pick % cands.len();
        let j = cands[k];
        proof {
            let sh = shooters(self.targets@, ox, paddle_x as int);
            assert(cands@[k as int] as int == sh[k as int]);
            assert(0 <= sh[k as int] < self.targets@.len());
        }
        let t = self.targets[j];
        assert(-LOCAL_LIMIT <= self.targets@[j as int].x <= LOCAL_LIMIT);
        Some(ShootEvent::new(t.x + self.offset_x, t.y + self.offset_y - TARGET_HALF, 0, -SWARM_SHOT_SPEED, true))
    }
}

proof fn lemma_count_monotone(ts: Seq<Target>, n: int)
    requires
        0 <= n <= ts.len(),
    ensures
        live_count(ts.take(n)) <= live_count(ts),
    decreases ts.len() - n,
{
    if n < ts.len() {
        lemma_count_monotone(ts, n + 1);
        assert(ts.take(n + 1).drop_last() == ts.take(n));
    } else {
        assert(ts.take(n) == ts);
    }
}

} // verus!

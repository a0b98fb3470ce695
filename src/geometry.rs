use vstd::prelude::*;

verus! {

/// Half the width of the playfield: it spans `-FIELD_HALF ..= FIELD_HALF`.
pub const FIELD_HALF: i64 = 640_000;

/// Half the height of the visible area.
pub const VIEW_HALF_HEIGHT: i64 = 420_000;

/// An axis-aligned rectangle, edges included.
#[derive(Clone, Copy, Debug, PartialEq, Eq)]
pub struct Rect {
    pub min_x: i64,
    pub min_y: i64,
    pub max_x: i64,
    pub max_y: i64,
}

impl Rect {
    /// Whether the point `(x, y)` lies in the rectangle or on its edge.
    pub open spec fn holds(self, x: int, y: int) -> bool {
        self.min_x <= x <= self.max_x && self.min_y <= y <= self.max_y
    }

    pub fn contains(&self, x: i64, y: i64) -> (r: bool)
        ensures
            r == self.holds(x as int, y as int),
    {
        self.min_x <= x && x <= self.max_x && self.min_y <= y && y <= self.max_y
    }

    /// The rectangle centred on `(cx, cy)` reaching `half_w` to each side
    /// and `half_h` up and down.
    pub open spec fn around_spec(cx: int, cy: int, half_w: int, half_h: int) -> Rect {
        Rect {
            min_x: (cx - half_w) as i64,
            min_y: (cy - half_h) as i64,
            max_x: (cx + half_w) as i64,
            max_y: (cy + half_h) as i64,
        }
    }

    pub fn around(cx: i64, cy: i64, half_w: i64, half_h: i64) -> (r: Rect)
        requires
            0 <= half_w <= 1_000_000_000,
            0 <= half_h <= 1_000_000_000,
            -1_000_000_000_000_000 <= cx <= 1_000_000_000_000_000,
            -1_000_000_000_000_000 <= cy <= 1_000_000_000_000_000,
        ensures
            r == Rect::around_spec(cx as int, cy as int, half_w as int, half_h as int),
    {
        Rect { min_x: cx - half_w, min_y: cy - half_h, max_x: cx + half_w, max_y: cy + half_h }
    }
}

/// Whether a point lies in the visible part of the playfield.
pub open spec fn in_view(x: int, y: int) -> bool {
    -FIELD_HALF <= x <= FIELD_HALF && -VIEW_HALF_HEIGHT <= y <= VIEW_HALF_HEIGHT
}

/// `n / d` rounded toward zero, as integer division in Rust does.
pub open spec fn div_toward_zero(n: int, d: int) -> int {
    if n >= 0 {
        n / d
    } else {
        -((-n) / d)
    }
}

/// Scales `v` by `dt_ms / 1000`, rounding toward zero: the distance covered
/// in `dt_ms` milliseconds at `v` milli-units per second.
pub open spec fn displacement(v: int, dt_ms: int) -> int {
    div_toward_zero(v * dt_ms, 1000)
}

pub fn scaled_by_time(v: i64, dt_ms: u32) -> (r: i64)
    requires
        -1_000_000 <= v <= 1_000_000,
    ensures
        r == displacement(v as int, dt_ms as int),
        -1000 * (dt_ms as int) <= r <= 1000 * (dt_ms as int),
{
    proof {
        assert(-1_000_000 * (dt_ms as int) <= v * dt_ms <= 1_000_000 * (dt_ms as int))
            by (nonlinear_arith)
            requires
                -1_000_000 <= v <= 1_000_000,
                0 <= dt_ms,
        ;
    }
    let p: i64 = v * (dt_ms as i64);
    let m: i64 = if p >= 0 { p } else { -p };
    proof {
        vstd::arithmetic::div_mod::lemma_div_is_ordered(m as int, 1_000_000 * (dt_ms as int), 1000);
        vstd::arithmetic::div_mod::lemma_div_multiples_vanish(1000 * (dt_ms as int), 1000);
        vstd::arithmetic::div_mod::lemma_div_pos_is_pos(m as int, 1000);
        assert(1_000_000 * (dt_ms as int) == 1000 * (1000 * (dt_ms as int)));
    }
    if p >= 0 {
        p / 1000
    } else {
        -((-p) / 1000)
    }
}

} // verus!

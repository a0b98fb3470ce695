use vstd::prelude::*;

verus! {

/// Points for each target destroyed.
pub const KILL_REWARD: i64 = 30;

/// Points taken for each shot the paddle fires.
pub const SHOT_COST: i64 = 10;

/// Points taken for each second of play.
pub const DECAY_PER_SECOND: i64 = 2;

/// The score after applying `delta` to `score`, never below zero.
pub open spec fn score_after(score: int, delta: int) -> int {
    if score + delta < 0 {
        0
    } else {
        score + delta
    }
}

/// Applies a change to the score, clamping the total at zero (and, in the
/// other direction, at the largest value the counter holds).
pub fn add_score(score: u64, delta: i64) -> (r: u64)
    ensures
        score + delta <= u64::MAX ==> r == score_after(score as int, delta as int),
        score + delta > u64::MAX ==> r == u64::MAX,
{
    if delta >= 0 {
        score.saturating_add(delta as u64)
    } else {
        let loss: u64 = (-(delta as i128)) as u64;
        if score >= loss {
            score - loss
        } else {
            0
        }
    }
}

/// The swarm's shot interval in milliseconds after `play_ms` of play:
/// `9 / (3 + t / 10)` seconds for `t` seconds, that is
/// `90_000_000 / (30_000 + play_ms)` milliseconds, rounded down.
pub open spec fn threshold_spec(play_ms: int) -> int {
    90_000_000int / (30_000int + play_ms)
}

pub fn shoot_threshold_ms(play_ms: u64) -> (r: u64)
    ensures
        r == threshold_spec(play_ms as int),
{
    if play_ms > u64::MAX - 30_000 {
        proof {
            assert(90_000_000int / (30_000int + play_ms) == 0) by (nonlinear_arith)
                requires play_ms > 1_000_000_000int;
        }
        0
    } else {
        90_000_000u64 / (30_000u64 + play_ms)
    }
}

/// Whether more than the shot threshold has passed from `last_ms` to
/// `now_ms`: `now - last > 90_000_000 / (30_000 + now)` over the rationals,
/// that is `(now - last) * (30_000 + now) > 90_000_000`.
pub open spec fn shot_due(last_ms: int, now_ms: int) -> bool {
    now_ms >= last_ms && (now_ms - last_ms) * (30_000 + now_ms) > 90_000_000
}

pub fn shot_is_due(last_ms: u64, now_ms: u64) -> (r: bool)
    ensures
        r == shot_due(last_ms as int, now_ms as int),
{
    if now_ms < last_ms {
        return false;
    }
    let d: u64 = now_ms - last_ms;
    if d > 3000 {
        proof {
            assert(d * (30_000 + now_ms) > 90_000_000) by (nonlinear_arith)
                requires
                    d > 3000,
                    now_ms >= 0,
            ;
        }
        return true;
    }
    proof {
        assert(d * (30_000 + now_ms) <= 3000 * (30_000 + (u64::MAX as int))) by (nonlinear_arith)
            requires
                d <= 3000,
                now_ms <= u64::MAX,
        ;
    }
    (d as u128) * (30_000u128 + now_ms as u128) > 90_000_000u128
}

/// The swarm shoots more often as play goes on: the interval never grows
/// with elapsed play time.
pub proof fn lemma_shoot_threshold_decreases(t1: int, t2: int)
    requires
        0 <= t1 <= t2,
    ensures
        threshold_spec(t2) <= threshold_spec(t1),
{
    vstd::arithmetic::div_mod::lemma_div_is_ordered_by_denominator(
        90_000_000,
        30_000 + t1,
        30_000 + t2,
    );
}

/// A shot is due exactly when the time since the last one exceeds the
/// threshold `shoot_threshold_ms` gives at that moment.
pub proof fn lemma_shot_due_exceeds_threshold(last_ms: int, now_ms: int)
    requires
        0 <= last_ms,
        0 <= now_ms,
    ensures
        shot_due(last_ms, now_ms) <==> now_ms >= last_ms && now_ms - last_ms > threshold_spec(now_ms),
{
    let den = 30_000 + now_ms;
    let q = 90_000_000int / den;
    let r = 90_000_000int % den;
    vstd::arithmetic::div_mod::lemma_fundamental_div_mod(90_000_000, den);
    vstd::arithmetic::div_mod::lemma_mod_pos_bound(90_000_000, den);
    if now_ms >= last_ms {
        let d = now_ms - last_ms;
        if d > q {
            assert(d * den > 90_000_000) by (nonlinear_arith)
                requires
                    d >= q + 1,
                    90_000_000 == den * q + r,
                    0 <= r < den,
            ;
        } else {
            assert(d * den <= 90_000_000) by (nonlinear_arith)
                requires
                    d <= q,
                    0 <= d,
                    90_000_000 == den * q + r,
                    0 <= r,
                    den > 0,
            ;
        }
    }
}

} // verus!

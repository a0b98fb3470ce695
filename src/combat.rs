use vstd::prelude::*;
use crate::geometry::{Rect, in_view};
use crate::pacing::{add_score, KILL_REWARD};
use crate::projectile::MBullet;
use crate::swarm::{Swarm, SwarmView, Target, first_hit, live_count};

verus! {

/// The score after `kills` rewards, saturating at the counter's maximum.
pub open spec fn rewarded(score: int, kills: int) -> int {
    if score + KILL_REWARD * kills > u64::MAX {
        u64::MAX as int
    } else {
        score + KILL_REWARD * kills
    }
}

/// Collisions resolved one projectile after another, in order:
/// `(targets, projectiles kept, targets destroyed, paddle struck)`.
/// A paddle shot destroys the first live target whose box holds it and is
/// consumed; a swarm shot inside the paddle's box is consumed and strikes
/// the paddle. Every other projectile is kept.
pub open spec fn resolved(ts: Seq<Target>, ox: int, oy: int, paddle: Rect, bs: Seq<MBullet>) -> (Seq<Target>, Seq<MBullet>, nat, bool)
    decreases bs.len(),
{
    if bs.len() == 0 {
        (ts, Seq::empty(), 0, false)
    } else {
        let (ts1, kept, kills, hit) = resolved(ts, ox, oy, paddle, bs.drop_last());
        let b = bs.last();
        if !b.alien {
            match first_hit(ts1, ts1.len() as int, ox, oy, b.x as int, b.y as int) {
                Some(j) => (ts1.update(j, Target { alive: false, ..ts1[j] }), kept, kills + 1, hit),
                None => (ts1, kept.push(b), kills, hit),
            }
        } else if paddle.holds(b.x as int, b.y as int) {
            (ts1, kept, kills, true)
        } else {
            (ts1, kept.push(b), kills, hit)
        }
    }
}

/// The projectiles that are still visible, in order.
pub open spec fn visible_only(bs: Seq<MBullet>) -> Seq<MBullet>
    decreases bs.len(),
{
    if bs.len() == 0 {
        Seq::empty()
    } else {
        let rest = visible_only(bs.drop_last());
        if in_view(bs.last().x as int, bs.last().y as int) {
            rest.push(bs.last())
        } else {
            rest
        }
    }
}

proof fn lemma_resolved_len(ts: Seq<Target>, ox: int, oy: int, paddle: Rect, bs: Seq<MBullet>)
    ensures
        resolved(ts, ox, oy, paddle, bs).0.len() == ts.len(),
        resolved(ts, ox, oy, paddle, bs).2 <= bs.len(),
        forall|k: int| 0 <= k < resolved(ts, ox, oy, paddle, bs).1.len() ==>
            bs.contains(#[trigger] resolved(ts, ox, oy, paddle, bs).1[k]),
    decreases bs.len(),
{
    if bs.len() > 0 {
        lemma_resolved_len(ts, ox, oy, paddle, bs.drop_last());
        let r = resolved(ts, ox, oy, paddle, bs.drop_last());
        crate::swarm::lemma_first_hit_range(r.0, r.0.len() as int, ox, oy, bs.last().x as int,
            bs.last().y as int);
        assert forall|k: int| 0 <= k < resolved(ts, ox, oy, paddle, bs).1.len() implies
            bs.contains(#[trigger] resolved(ts, ox, oy, paddle, bs).1[k]) by {
            if k < r.1.len() {
                assert(resolved(ts, ox, oy, paddle, bs).1[k] == r.1[k]);
                assert(bs.drop_last().contains(r.1[k]));
                let i = choose|i: int| 0 <= i < bs.drop_last().len() && bs.drop_last()[i] == r.1[k];
                assert(bs[i] == r.1[k]);
            } else {
                assert(bs[bs.len() - 1] == bs.last());
            }
        }
    }
}

proof fn lemma_no_live_means_all_removed(ts: Seq<Target>)
    requires
        live_count(ts) == 0,
    ensures
        forall|i: int| 0 <= i < ts.len() ==> !(#[trigger] ts[i]).alive,
    decreases ts.len(),
{
    if ts.len() > 0 {
        let r = ts.drop_last();
        lemma_no_live_means_all_removed(r);
        assert forall|i: int| 0 <= i < ts.len() implies !(#[trigger] ts[i]).alive by {
            if i < r.len() {
                assert(ts[i] == r[i]);
            }
        }
    }
}

proof fn lemma_no_hit_without_live(ts: Seq<Target>, n: int, ox: int, oy: int, x: int, y: int)
    requires
        n <= ts.len(),
        forall|i: int| 0 <= i < ts.len() ==> !(#[trigger] ts[i]).alive,
    ensures
        first_hit(ts, n, ox, oy, x, y) is None,
    decreases n,
{
    if n > 0 {
        lemma_no_hit_without_live(ts, n - 1, ox, oy, x, y);
    }
}

/// With no live target, collisions leave the targets as they are and
/// destroy nothing.
pub proof fn lemma_nothing_to_hit(ts: Seq<Target>, ox: int, oy: int, paddle: Rect, bs: Seq<MBullet>)
    requires
        live_count(ts) == 0,
    ensures
        resolved(ts, ox, oy, paddle, bs).0 == ts,
        resolved(ts, ox, oy, paddle, bs).2 == 0,
    decreases bs.len(),
{
    lemma_no_live_means_all_removed(ts);
    if bs.len() > 0 {
        lemma_nothing_to_hit(ts, ox, oy, paddle, bs.drop_last());
        lemma_no_hit_without_live(ts, ts.len() as int, ox, oy, bs.last().x as int, bs.last().y as int);
    }
}

/// A paddle shot inside a target's box, whatever projectiles came before
/// it, destroys exactly that target (the first live one in slot order whose
/// box holds it), is consumed, leaves every other projectile's fate as it
/// was, and adds exactly the kill reward to the score.
pub proof fn lemma_paddle_shot_kills(ts: Seq<Target>, ox: int, oy: int, paddle: Rect, before: Seq<MBullet>, b: MBullet, score: int)
    requires
        !b.alien,
        first_hit(resolved(ts, ox, oy, paddle, before).0, ts.len() as int, ox, oy, b.x as int, b.y as int) is Some,
        0 <= score,
        score + KILL_REWARD * (resolved(ts, ox, oy, paddle, before).2 + 1) <= u64::MAX,
    ensures
        ({
            let (ts1, kept1, kills1, hit1) = resolved(ts, ox, oy, paddle, before);
            let j = first_hit(ts1, ts.len() as int, ox, oy, b.x as int, b.y as int).unwrap();
            &&& 0 <= j < ts.len()
            &&& ts1[j].alive
            &&& resolved(ts, ox, oy, paddle, before.push(b))
                == (ts1.update(j, Target { alive: false, ..ts1[j] }), kept1, kills1 + 1, hit1)
            &&& rewarded(score, kills1 + 1int) == rewarded(score, kills1 as int) + 30
        }),
{
    lemma_resolved_len(ts, ox, oy, paddle, before);
    let ts1 = resolved(ts, ox, oy, paddle, before).0;
    crate::swarm::lemma_first_hit_range(ts1, ts.len() as int, ox, oy, b.x as int, b.y as int);
    assert(before.push(b).drop_last() =~= before);
}

/// A swarm shot inside the paddle's box, whatever projectiles came before
/// it, is consumed and strikes the paddle, leaving the targets and every
/// other projectile's fate as they were.
pub proof fn lemma_swarm_shot_strikes(ts: Seq<Target>, ox: int, oy: int, paddle: Rect, before: Seq<MBullet>, b: MBullet)
    requires
        b.alien,
        paddle.holds(b.x as int, b.y as int),
    ensures
        ({
            let (ts1, kept1, kills1, hit1) = resolved(ts, ox, oy, paddle, before);
            resolved(ts, ox, oy, paddle, before.push(b)) == (ts1, kept1, kills1, true)
        }),
{
    assert(before.push(b).drop_last() =~= before);
}

/// Once any swarm shot lies in the paddle's box, the paddle is struck,
/// whatever the other projectiles do.
pub proof fn lemma_strike_is_kept(ts: Seq<Target>, ox: int, oy: int, paddle: Rect, bs: Seq<MBullet>, k: int)
    requires
        0 <= k < bs.len(),
        bs[k].alien,
        paddle.holds(bs[k].x as int, bs[k].y as int),
    ensures
        resolved(ts, ox, oy, paddle, bs).3,
    decreases bs.len(),
{
    let r = bs.drop_last();
    if k < bs.len() - 1 {
        assert(r[k] == bs[k]);
        lemma_strike_is_kept(ts, ox, oy, paddle, r, k);
    } else {
        assert(bs.last() == bs[k]);
    }
}

/// Resolves the collisions of `bullets` (already moved) with the swarm's
/// targets and the paddle's box, adding the kill reward to `score` for each
/// target destroyed. Returns the projectiles kept and whether the paddle was
/// struck.
pub fn resolve_collisions(swarm: &mut Swarm, bullets: Vec<MBullet>, paddle: Rect, score: &mut u64) -> (r: (Vec<MBullet>, bool))
    requires
        old(swarm).wf(),
        forall|k: int| 0 <= k < bullets@.len() ==> (#[trigger] bullets@[k]).in_flight(),
    ensures
        final(swarm).wf(),
        ({
            let (ts, kept, kills, hit) = resolved(old(swarm).targets@, old(swarm).offset_x as int,
                old(swarm).offset_y as int, paddle, bullets@);
            &&& final(swarm)@ == (SwarmView { targets: ts, ..old(swarm)@ })
            &&& r.0@ == kept
            &&& r.1 == hit
            &&& *final(score) == rewarded(*old(score) as int, kills as int)
        }),
        forall|k: int| 0 <= k < r.0@.len() ==> (#[trigger] r.0@[k]).in_flight(),
{
    let ghost ts0 = swarm.targets@;
    let ghost ox = swarm.offset_x as int;
    let ghost oy = swarm.offset_y as int;
    let mut kept: Vec<MBullet> = Vec::new();
    let mut hit = false;
    let ghost mut kills: nat = 0;
    let mut i: usize = 0;
    while i < bullets.len()
        invariant
            swarm.wf(),
            i <= bullets@.len(),
            swarm.offset_x == old(swarm).offset_x,
            swarm.offset_y == old(swarm).offset_y,
            swarm.step == old(swarm).step,
            swarm.area == old(swarm).area,
            swarm.last_move_ms == old(swarm).last_move_ms,
            swarm.last_shot_ms == old(swarm).last_shot_ms,
            ts0 == old(swarm).targets@,
            ox == swarm.offset_x,
            oy == swarm.offset_y,
            (swarm.targets@, kept@, kills, hit) == resolved(ts0, ox, oy, paddle, bullets@.take(i as int)),
            *score == rewarded(*old(score) as int, kills as int),
        decreases bullets@.len() - i,
    {
        let ghost pre = bullets@.take(i as int);
        assert(bullets@.take(i + 1).drop_last() == pre);
        assert(bullets@.take(i + 1).last() == bullets@[i as int]);
        proof {
            lemma_resolved_len(ts0, ox, oy, paddle, pre);
        }
        let b = bullets[i];
        if !b.alien {
            match swarm.hit_target(b.x, b.y) {
                Some(j) => {
                    proof {
                        crate::swarm::lemma_first_hit_range(swarm.targets@, swarm.targets@.len() as int,
                            ox, oy, b.x as int, b.y as int);
                    }
                    swarm.kill(j);
                    *score = add_score(*score, KILL_REWARD);
                    proof {
                        kills = kills + 1;
                    }
                },
                None => {
                    kept.push(b);
                },
            }
        } else if paddle.contains(b.x, b.y) {
            hit = true;
        } else {
            kept.push(b);
        }
        i = i + 1;
    }
    assert(bullets@.take(i as int) == bullets@);
    proof {
        lemma_resolved_len(ts0, ox, oy, paddle, bullets@);
        assert forall|k: int| 0 <= k < kept@.len() implies (#[trigger] kept@[k]).in_flight() by {
            assert(kept@[k] == resolved(ts0, ox, oy, paddle, bullets@).1[k]);
            assert(bullets@.contains(kept@[k]));
        }
    }
    (kept, hit)
}

/// Keeps the projectiles that are still visible, in order.
pub fn retire(bullets: Vec<MBullet>) -> (r: Vec<MBullet>)
    requires
        forall|k: int| 0 <= k < bullets@.len() ==> (#[trigger] bullets@[k]).in_flight(),
    ensures
        r@ == visible_only(bullets@),
        forall|k: int| 0 <= k < r@.len() ==> (#[trigger] r@[k]).wf(),
{
    let mut kept: Vec<MBullet> = Vec::new();
    let mut i: usize = 0;
    while i < bullets.len()
        invariant
            i <= bullets@.len(),
            forall|k: int| 0 <= k < bullets@.len() ==> (#[trigger] bullets@[k]).in_flight(),
            kept@ == visible_only(bullets@.take(i as int)),
            forall|k: int| 0 <= k < kept@.len() ==> (#[trigger] kept@[k]).wf(),
        decreases bullets@.len() - i,
    {
        assert(bullets@.take(i + 1).drop_last() == bullets@.take(i as int));
        assert(bullets@.take(i + 1).last() == bullets@[i as int]);
        let b = bullets[i];
        if b.visible() {
            kept.push(b);
        }
        i = i + 1;
    }
    assert(bullets@.take(i as int) == bullets@);
    kept
}

} // verus!

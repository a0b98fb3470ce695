use invaders_core::combat::resolve_collisions;
use invaders_core::pacing::{add_score, shoot_threshold_ms, shot_is_due};
use invaders_core::state::evaluate;
use invaders_core::{GameState, Input, MBat, MBullet, Rect, Session, ShootEvent, Swarm, Target};

fn playing_session() -> Session {
    let mut s = Session::new(7);
    s.enter_game();
    assert_eq!(s.state, GameState::Starting);
    let exit = s.step(Input::default(), 16, false, 0);
    assert!(!exit);
    assert_eq!(s.state, GameState::Playing);
    s
}

fn world_centre(s: &Swarm, j: usize) -> (i64, i64) {
    let t = s.targets[j];
    (t.x + s.offset_x, t.y + s.offset_y)
}

fn paddle_bullet_at(x: i64, y: i64) -> MBullet {
    MBullet { x, y, vx: 0, vy: 0, alien: false }
}

#[test]
fn score_never_goes_below_zero() {
    let mut s = playing_session();
    s.score = 0;
    // the paddle stays at the left wall, out of reach of every target
    s.paddle.x = -600_000;
    let input = Input { shoot: true, move_left: true, ..Input::default() };
    for _ in 0..200 {
        s.step(input, 50, false, 0);
        assert!(s.score < 1_000);
        if s.state != GameState::Playing {
            break;
        }
    }
    assert_eq!(s.score, 0);
    assert_eq!(add_score(3, -10), 0);
    assert_eq!(add_score(0, -2), 0);
    assert_eq!(add_score(12, -2), 10);
}

#[test]
fn paddle_stays_on_field_and_bounces() {
    let mut p = MBat::new();
    p.set_force(false, true);
    for i in 0..436 {
        p.integrate(16);
        assert!(p.x <= 600_000, "step {}", i);
    }
    assert!(p.x < 600_000);
    p.integrate(16);
    assert_eq!(p.x, 600_000);
    assert_eq!(p.v, -(99_882 * 7 / 10));
    for _ in 0..2000 {
        p.integrate(16);
        assert!(p.x >= -600_000 && p.x <= 600_000);
        assert!(p.v >= -100_000 && p.v <= 100_000);
    }
}

#[test]
fn paddle_bounces_off_left_wall() {
    let mut p = MBat { x: -599_990, v: -50_000, f: 0, last_shot_ms: None };
    p.integrate(16);
    // v1 = -50_000 + 16 * 50_000 / 1000 = -49_200, x1 = -599_990 - 787 < -600_000
    assert_eq!(p.x, -600_000);
    assert_eq!(p.v, 34_440);
}

#[test]
fn paddle_velocity_approaches_terminal() {
    let mut p = MBat::new();
    p.set_force(false, true);
    let mut prev = 0;
    for _ in 0..436 {
        p.integrate(16);
        assert!(p.v >= prev);
        assert!(p.v <= 100_000);
        prev = p.v;
    }
    assert!(p.v >= 99_800);
}

#[test]
fn paddle_pushed_for_ten_seconds() {
    // from the left wall there is room for ten seconds of travel
    let mut p = MBat { x: -600_000, v: 0, f: 0, last_shot_ms: None };
    p.set_force(false, true);
    let mut prev = 0;
    for _ in 0..625 {
        p.integrate(16);
        assert!(p.v >= prev && p.v <= 100_000);
        prev = p.v;
    }
    assert_eq!(p.v, 99_938);
    assert_eq!(p.x, 301_041);
}

#[test]
fn paddle_forces_cancel() {
    let mut p = MBat::new();
    p.set_force(true, true);
    assert_eq!(p.f, 0);
    p.set_force(true, false);
    assert_eq!(p.f, -100_000);
    p.set_force(false, false);
    assert_eq!(p.f, 0);
}

#[test]
fn long_frame_is_sliced() {
    let mut a = MBat::new();
    a.set_force(false, true);
    let mut b = a;
    a.advance(2500);
    b.integrate(1000);
    b.integrate(1000);
    b.integrate(500);
    assert_eq!(a, b);
    assert_eq!(a.v, 100_000);
}

#[test]
fn swarm_moves_right_then_down_and_turns() {
    let mut s = Swarm::spawn();
    assert_eq!(s.targets.len(), 66);
    assert_eq!(s.step, 17_460);
    s.move_tick(999);
    assert_eq!(s.offset_x, -90_000);
    s.move_tick(1000);
    assert_eq!(s.area, Rect { min_x: -640_000, min_y: -100_000, max_x: 459_980, max_y: 400_000 });
    assert_eq!((s.offset_x, s.offset_y), (-72_540, 150_000));
    for k in 2..=10u64 {
        s.move_tick(k * 1000);
        assert_eq!(s.offset_x, -90_000 + 17_460 * k as i64);
        assert_eq!(s.offset_y, 150_000);
    }
    s.move_tick(11_000);
    assert_eq!(s.area.max_x, 634_580);
    assert_eq!((s.offset_x, s.offset_y, s.step), (84_600, 132_540, -17_460));
    s.move_tick(12_000);
    assert_eq!((s.offset_x, s.offset_y, s.step), (67_140, 132_540, -17_460));
}

#[test]
fn swarm_turns_at_left_wall() {
    let mut s = Swarm::spawn();
    s.offset_x = -72_000;
    s.step = -17_460;
    s.move_tick(1000);
    // left edge -622_000 is still beyond -640_000 + 17_460: one more step left
    assert_eq!(s.area.min_x, -622_000);
    assert_eq!((s.offset_x, s.offset_y, s.step), (-89_460, 150_000, -17_460));
    s.move_tick(2000);
    assert_eq!(s.area.min_x, -639_460);
    assert_eq!((s.offset_x, s.offset_y, s.step), (-89_460, 132_540, 17_460));
}

#[test]
fn swarm_moves_when_edge_lands_on_the_line() {
    // left edge exactly at -640_000 + 17_460: one more step left
    let mut s = Swarm::spawn();
    s.offset_x = -72_540;
    s.step = -17_460;
    s.move_tick(1000);
    assert_eq!(s.area.min_x, -622_540);
    assert_eq!((s.offset_x, s.offset_y, s.step), (-90_000, 150_000, -17_460));
    // right edge exactly at 640_000 - 17_460: one more step right
    let mut s = Swarm::spawn();
    s.offset_x = 72_560;
    s.move_tick(1000);
    assert_eq!(s.area.max_x, 622_540);
    assert_eq!((s.offset_x, s.offset_y, s.step), (90_020, 150_000, 17_460));
    s.move_tick(2000);
    assert_eq!((s.offset_x, s.offset_y, s.step), (90_020, 132_540, -17_460));
}

#[test]
fn spawned_box_is_union_of_targets() {
    let s = Swarm::spawn();
    assert_eq!(s.area, Rect { min_x: -640_000, min_y: -100_000, max_x: 459_980, max_y: 400_000 });
}

#[test]
fn empty_swarm_does_not_move() {
    let mut s = Swarm::spawn();
    for t in s.targets.iter_mut() {
        t.alive = false;
    }
    s.move_tick(5000);
    assert_eq!((s.offset_x, s.offset_y, s.last_move_ms), (-90_000, 150_000, 0));
    assert!(!s.has_live());
    assert_eq!(s.live_targets(), 0);
}

#[test]
fn box_follows_live_targets() {
    let mut s = Swarm::spawn();
    for j in 0..66 {
        if j != 17 {
            s.kill(j);
        }
    }
    assert_eq!(s.live_targets(), 1);
    // slot 17: row 1, column 6
    let t = s.targets[17];
    assert_eq!((t.x, t.y), (-523_810 + 6 * 104_760, 223_810 - 89_524));
    s.move_tick(1000);
    assert_eq!(
        s.area,
        Rect {
            min_x: t.x - 26_190 - 90_000,
            min_y: t.y - 26_190 + 150_000,
            max_x: t.x + 26_190 - 90_000,
            max_y: t.y + 26_190 + 150_000,
        }
    );
}

#[test]
fn cleared_swarm_wins() {
    let mut s = playing_session();
    for t in s.swarm.targets.iter_mut() {
        t.alive = false;
    }
    s.step(Input::default(), 16, false, 0);
    assert_eq!(s.state, GameState::Won);
    assert_eq!(evaluate(0, true, -400_000), GameState::Won);
}

#[test]
fn landed_swarm_loses() {
    let mut s = playing_session();
    s.swarm.area.min_y = -350_000;
    s.step(Input::default(), 16, false, 0);
    assert_eq!(s.state, GameState::Lost);
    assert_eq!(evaluate(5, false, -349_999), GameState::Playing);
    assert_eq!(evaluate(5, false, -350_000), GameState::Lost);
}

#[test]
fn paddle_shot_destroys_one_target() {
    let mut s = Swarm::spawn();
    let (x, y) = world_centre(&s, 30);
    let mut score = 0u64;
    let paddle = Rect { min_x: -40_000, min_y: -370_000, max_x: 40_000, max_y: -350_000 };
    let (kept, struck) = resolve_collisions(&mut s, vec![paddle_bullet_at(x + 26_190, y - 26_190)], paddle, &mut score);
    assert!(kept.is_empty());
    assert!(!struck);
    assert_eq!(score, 30);
    assert!(!s.targets[30].alive);
    assert_eq!(s.live_targets(), 65);
    // a second shot at the same place passes through the empty slot
    let (kept, _) = resolve_collisions(&mut s, vec![paddle_bullet_at(x, y)], paddle, &mut score);
    assert_eq!(kept.len(), 1);
    assert_eq!(score, 30);
}

#[test]
fn swarm_shot_passes_through_targets() {
    let mut s = Swarm::spawn();
    let (x, y) = world_centre(&s, 3);
    let mut score = 4u64;
    let paddle = Rect { min_x: -40_000, min_y: -370_000, max_x: 40_000, max_y: -350_000 };
    let b = MBullet { x, y, vx: 0, vy: -150_000, alien: true };
    let (kept, struck) = resolve_collisions(&mut s, vec![b], paddle, &mut score);
    assert_eq!(kept, vec![b]);
    assert!(!struck);
    assert_eq!(score, 4);
    assert_eq!(s.live_targets(), 66);
}

#[test]
fn clearing_the_whole_grid_wins() {
    let mut s = playing_session();
    for j in 0..66 {
        let (x, y) = world_centre(&s.swarm, j);
        s.bullets = vec![paddle_bullet_at(x, y)];
        s.step(Input::default(), 0, false, 0);
        if j < 65 {
            assert_eq!(s.state, GameState::Playing, "after kill {}", j);
        }
    }
    assert_eq!(s.swarm.live_targets(), 0);
    assert_eq!(s.state, GameState::Won);
}

#[test]
fn shot_cost_clamps_at_zero() {
    let mut s = playing_session();
    s.score = 5;
    s.step(Input { shoot: true, ..Input::default() }, 0, false, 0);
    assert_eq!(s.score, 0);
    assert_eq!(s.bullets, vec![MBullet { x: s.paddle.x, y: -340_000, vx: 0, vy: 100_000, alien: false }]);
}

#[test]
fn paddle_shot_delay() {
    let mut p = MBat::new();
    assert_eq!(p.try_shoot(100), Some(ShootEvent::new(0, -340_000, 0, 100_000, false)));
    assert_eq!(p.try_shoot(1599), None);
    assert_eq!(p.try_shoot(1600), None);
    assert!(p.try_shoot(1601).is_some());
    assert_eq!(p.last_shot_ms, Some(1601));
}

#[test]
fn swarm_shot_on_paddle_loses() {
    let mut s = playing_session();
    s.bullets = vec![MBullet { x: s.paddle.x + 10_000, y: -355_000, vx: 0, vy: 0, alien: true }];
    s.step(Input::default(), 0, false, 0);
    assert!(s.bullets.is_empty());
    assert_eq!(s.state, GameState::Lost);
}

#[test]
fn shoot_threshold_values() {
    assert_eq!(shoot_threshold_ms(0), 3000);
    assert_eq!(shoot_threshold_ms(10_000), 2250);
    assert_eq!(shoot_threshold_ms(27_000), 1578);
    assert_eq!(shoot_threshold_ms(u64::MAX), 0);
    let mut prev = shoot_threshold_ms(0);
    for t in (0..200_000u64).step_by(500) {
        let cur = shoot_threshold_ms(t);
        assert!(cur <= prev);
        prev = cur;
    }
    assert!(shoot_threshold_ms(27_000) < shoot_threshold_ms(0));
}

#[test]
fn swarm_shot_waits_for_more_than_threshold() {
    assert!(!shot_is_due(0, 2748));
    assert!(shot_is_due(0, 2749));
    // at 10 s the threshold is exactly 2250 ms: equal is not enough
    assert!(!shot_is_due(7750, 10_000));
    assert!(shot_is_due(7749, 10_000));
    assert!(!shot_is_due(5000, 4000));
    assert!(shot_is_due(0, u64::MAX));
}

#[test]
fn swarm_fires_from_target_near_paddle() {
    let mut s = Swarm::spawn();
    assert_eq!(s.maybe_shoot(2000, 0, true, 0), None);
    assert_eq!(s.last_shot_ms, 0);
    assert_eq!(s.maybe_shoot(3000, 0, true, 0), Some(ShootEvent::new(-194_770, 347_620, 0, -150_000, true)));
    assert_eq!(s.last_shot_ms, 3000);
    assert_eq!(s.maybe_shoot(6000, 0, true, 5), Some(ShootEvent::new(-90_010, 258_096, 0, -150_000, true)));
    assert_eq!(s.maybe_shoot(6100, 0, true, 5), None);
    assert_eq!(s.maybe_shoot(9000, 0, false, 5), None);
    assert_eq!(s.last_shot_ms, 9000);
    // 24 targets in range: pick wraps around
    assert_eq!(s.maybe_shoot(12_000, 0, true, 24), Some(ShootEvent::new(-194_770, 347_620, 0, -150_000, true)));
}

#[test]
fn swarm_skips_when_nobody_in_range() {
    let mut s = Swarm::spawn();
    for j in 0..66 {
        if j % 11 >= 2 {
            s.kill(j);
        }
    }
    assert_eq!(s.maybe_shoot(3000, 600_000, true, 0), None);
    assert_eq!(s.last_shot_ms, 3000);
}

#[test]
fn pause_and_resume() {
    let mut s = playing_session();
    let clock = s.clock_ms;
    s.step(Input { pause: true, ..Input::default() }, 16, false, 0);
    assert_eq!(s.state, GameState::Paused);
    assert_eq!(s.clock_ms, clock);
    assert!(s.state.in_menu());
    s.step(Input::default(), 16, false, 0);
    assert_eq!(s.state, GameState::Paused);
    s.step(Input { close: true, ..Input::default() }, 16, false, 0);
    assert_eq!(s.state, GameState::Playing);
    assert!(!s.state.in_menu());
    s.step(Input { pause: true, ..Input::default() }, 16, false, 0);
    s.step(Input { pause: true, ..Input::default() }, 16, false, 0);
    assert_eq!(s.state, GameState::Playing);
}

#[test]
fn quit_from_menu_leaves() {
    let mut s = playing_session();
    s.step(Input { pause: true, ..Input::default() }, 16, false, 0);
    let exit = s.step(Input { quit: true, ..Input::default() }, 16, false, 0);
    assert!(exit);
    assert_eq!(s.state, GameState::Idle);
    assert_eq!(s.swarm.live_targets(), 0);
    assert!(s.bullets.is_empty());
    let exit = s.step(Input { quit: true, ..Input::default() }, 16, false, 0);
    assert!(!exit);
    s.enter_game();
    assert_eq!(s.state, GameState::Starting);
    assert_eq!(s.swarm.live_targets(), 66);
    assert_eq!((s.score, s.clock_ms), (0, 0));
}

#[test]
fn quit_is_ignored_while_playing() {
    let mut s = playing_session();
    let exit = s.step(Input { quit: true, ..Input::default() }, 16, false, 0);
    assert!(!exit);
    assert_eq!(s.state, GameState::Playing);
}

#[test]
fn score_decays_each_second() {
    let mut s = playing_session();
    s.score = 100;
    s.clock_ms = 0;
    s.last_decay_ms = 0;
    s.step(Input::default(), 1000, false, 0);
    assert_eq!(s.score, 100);
    s.step(Input::default(), 1, false, 0);
    assert_eq!(s.score, 98);
    assert_eq!(s.last_decay_ms, 1001);
}

#[test]
fn projectiles_fly_and_retire() {
    let mut s = playing_session();
    s.bullets = vec![
        MBullet { x: 0, y: 415_000, vx: 0, vy: 100_000, alien: false },
        MBullet { x: 500_000, y: 0, vx: -2_000, vy: -150_000, alien: true },
    ];
    s.step(Input::default(), 100, false, 0);
    assert_eq!(s.bullets, vec![MBullet { x: 499_800, y: -15_000, vx: -2_000, vy: -150_000, alien: true }]);
}

#[test]
fn ticks_with_seeded_generator() {
    let mut s = Session::new(42);
    s.enter_game();
    let mut fired = false;
    for _ in 0..2000 {
        let before = s.bullets.len();
        s.tick(Input::default(), 16);
        if s.bullets.len() > before {
            fired = true;
            assert!(s.bullets.iter().all(|b| b.alien && b.vy == -150_000));
        }
        if s.state != GameState::Playing && s.state != GameState::Starting {
            break;
        }
    }
    assert!(fired);
}

#[test]
fn targets_spawn_on_grid() {
    let s = Swarm::spawn();
    assert_eq!(s.targets[0], Target { x: -523_810, y: 223_810, alive: true });
    assert_eq!(s.targets[10], Target { x: 523_790, y: 223_810, alive: true });
    assert_eq!(s.targets[65], Target { x: 523_790, y: 223_810 - 5 * 89_524, alive: true });
}

use pong_core::scheduler::{Scheduler, SystemDescriptor};
use pong_core::systems::SystemKind;
use pong_core::world::{Config, InputSnapshot, Side, Transform, Velocity, World};

fn sys_test_config() -> Config {
    Config {
        arena_width: 800,
        arena_height: 600,
        paddle_width: 16,
        paddle_height: 64,
        paddle_speed: 4,
        ball_radius: 8,
        ball_min_speed: 2,
        ball_max_speed: 40,
        bounce_speedup_num: 11,
        bounce_speedup_den: 10,
        serve_speed: 10,
    }
}

fn one_system(name: &str, kind: SystemKind) -> Scheduler {
    let mut s = Scheduler::new();
    s.register(SystemDescriptor { name: name.to_string(), kind, deps: Vec::new() }).unwrap();
    s.finalize().unwrap();
    s
}

fn full_schedule() -> Scheduler {
    let mut s = Scheduler::new();
    let reg = |s: &mut Scheduler, name: &str, kind: SystemKind, deps: &[&str]| {
        s.register(SystemDescriptor {
            name: name.to_string(),
            kind,
            deps: deps.iter().map(|d| d.to_string()).collect(),
        })
        .unwrap();
    };
    reg(&mut s, "paddle_system", SystemKind::PaddleMovement, &[]);
    reg(&mut s, "ball_system", SystemKind::BallMotion, &[]);
    reg(&mut s, "collision_system", SystemKind::Bounce, &["paddle_system", "ball_system"]);
    reg(&mut s, "winner_system", SystemKind::WinDetection, &["ball_system"]);
    s.finalize().unwrap();
    s
}

#[test]
fn paddle_stays_clamped_under_sustained_input() {
    let cfg = sys_test_config();
    let mut w = World::new(cfg);
    let left = w.spawn_paddle(Side::Left, 20, 10);
    let right = w.spawn_paddle(Side::Right, 764, 500);
    let s = one_system("paddle_system", SystemKind::PaddleMovement);
    let up_and_down =
        InputSnapshot { left_up: true, left_down: false, right_up: false, right_down: true };
    for _ in 0..100 {
        s.tick(&mut w, &up_and_down, 1);
        let ly = w.get_transform(left).unwrap().y;
        let ry = w.get_transform(right).unwrap().y;
        assert!(0 <= ly && ly <= cfg.arena_height - cfg.paddle_height);
        assert!(0 <= ry && ry <= cfg.arena_height - cfg.paddle_height);
    }
    // Sustained input beyond the bound pins each paddle at its limit.
    assert_eq!(w.get_transform(left).unwrap().y, 0);
    assert_eq!(w.get_transform(right).unwrap().y, cfg.arena_height - cfg.paddle_height);
}

#[test]
fn paddle_moves_by_speed_times_dt() {
    let cfg = sys_test_config();
    let mut w = World::new(cfg);
    let id = w.spawn_paddle(Side::Left, 20, 300);
    let s = one_system("paddle_system", SystemKind::PaddleMovement);
    let up = InputSnapshot { left_up: true, ..Default::default() };
    s.tick(&mut w, &up, 3);
    // y moves up by speed * dt = 4 * 3.
    assert_eq!(w.get_transform(id).unwrap().y, 300 - 12);
}

#[test]
fn ball_moves_by_velocity_times_dt() {
    let mut w = World::new(sys_test_config());
    let id = w.spawn_ball(400, 300, 6, -4);
    let s = one_system("ball_system", SystemKind::BallMotion);
    s.tick(&mut w, &InputSnapshot::default(), 2);
    let t = w.get_transform(id).unwrap();
    assert_eq!((t.x, t.y), (412, 292));
    // Velocity itself is untouched by motion.
    assert_eq!(w.get_velocity(id).unwrap(), Velocity { dx: 6, dy: -4 });
}

#[test]
fn top_wall_bounce_reflects_and_repositions() {
    // Ball overlapping the top wall while moving upwards: the vertical
    // velocity flips sign with unchanged magnitude and the ball is put back
    // just inside the boundary.
    let cfg = sys_test_config();
    let mut w = World::new(cfg);
    let id = w.spawn_ball(400, 4, 4, -6);
    let s = one_system("collision_system", SystemKind::Bounce);
    s.tick(&mut w, &InputSnapshot::default(), 1);
    let t = w.get_transform(id).unwrap();
    let v = w.get_velocity(id).unwrap();
    assert_eq!(t, Transform { x: 400, y: cfg.ball_radius });
    assert_eq!(v, Velocity { dx: 4, dy: 6 });
    // No tunneling on the following tick: the ball moves away from the wall.
    let s2 = full_schedule();
    s2.tick(&mut w, &InputSnapshot::default(), 1);
    let t2 = w.get_transform(id).unwrap();
    assert!(t2.y - cfg.ball_radius >= 0);
}

#[test]
fn bottom_wall_bounce_reflects_downward_motion() {
    let cfg = sys_test_config();
    let mut w = World::new(cfg);
    let id = w.spawn_ball(400, 598, 4, 6);
    let s = one_system("collision_system", SystemKind::Bounce);
    s.tick(&mut w, &InputSnapshot::default(), 1);
    let t = w.get_transform(id).unwrap();
    let v = w.get_velocity(id).unwrap();
    assert_eq!(t.y, cfg.arena_height - cfg.ball_radius);
    assert_eq!(v, Velocity { dx: 4, dy: -6 });
}

#[test]
fn paddle_bounce_speeds_up_within_band() {
    // A paddle hit reflects the horizontal component, scales it by 11/10
    // and keeps the speed magnitude inside [min, max].
    let cfg = sys_test_config();
    let mut w = World::new(cfg);
    w.spawn_paddle(Side::Left, 30, 268);
    let id = w.spawn_ball(40, 300, -10, 0);
    let s = one_system("collision_system", SystemKind::Bounce);
    s.tick(&mut w, &InputSnapshot::default(), 1);
    let v = w.get_velocity(id).unwrap();
    assert_eq!(v, Velocity { dx: 11, dy: 0 });
    let speed = v.dx.abs() + v.dy.abs();
    assert!(cfg.ball_min_speed <= speed && speed <= cfg.ball_max_speed);
}

#[test]
fn repeated_bounces_cap_at_max_speed() {
    let cfg = sys_test_config();
    let mut w = World::new(cfg);
    w.spawn_paddle(Side::Left, 30, 268);
    let id = w.spawn_ball(40, 300, -10, 0);
    let s = one_system("collision_system", SystemKind::Bounce);
    for _ in 0..30 {
        // Re-point the ball at the paddle and bounce again.
        let v = w.get_velocity(id).unwrap();
        let speed = v.dx.abs() + v.dy.abs();
        assert!(cfg.ball_min_speed <= speed && speed <= cfg.ball_max_speed);
        let mut w2 = World::new(cfg);
        w2.spawn_paddle(Side::Left, 30, 268);
        w2.spawn_ball(40, 300, -speed, 0);
        s.tick(&mut w2, &InputSnapshot::default(), 1);
        w = w2;
    }
    let v = w.get_velocity(1).unwrap();
    assert_eq!(v.dx.abs() + v.dy.abs(), cfg.ball_max_speed);
}

#[test]
fn crossing_right_boundary_scores_left_and_resets() {
    // Ball just inside the right edge moving right: on the next tick it
    // crosses, the left player scores exactly one point, and the ball is
    // reset to the arena centre at the serve speed.
    let cfg = sys_test_config();
    let mut w = World::new(cfg);
    let id = w.spawn_ball(799, 300, 5, 0);
    let mut s = Scheduler::new();
    s.register(SystemDescriptor {
        name: "ball_system".to_string(),
        kind: SystemKind::BallMotion,
        deps: Vec::new(),
    })
    .unwrap();
    s.register(SystemDescriptor {
        name: "winner_system".to_string(),
        kind: SystemKind::WinDetection,
        deps: vec!["ball_system".to_string()],
    })
    .unwrap();
    s.finalize().unwrap();
    s.tick(&mut w, &InputSnapshot::default(), 1);
    let score = w.get_score();
    assert_eq!((score.left, score.right), (1, 0));
    let t = w.get_transform(id).unwrap();
    assert_eq!(t.x, cfg.arena_width / 2);
    let v = w.get_velocity(id).unwrap();
    assert_eq!(v.dx.abs() + v.dy.abs(), cfg.serve_speed);
    assert_eq!(v, Velocity { dx: -cfg.serve_speed, dy: 0 });
}

#[test]
fn crossing_left_boundary_scores_right() {
    let cfg = sys_test_config();
    let mut w = World::new(cfg);
    let id = w.spawn_ball(1, 300, -5, 0);
    let mut s = Scheduler::new();
    s.register(SystemDescriptor {
        name: "ball_system".to_string(),
        kind: SystemKind::BallMotion,
        deps: Vec::new(),
    })
    .unwrap();
    s.register(SystemDescriptor {
        name: "winner_system".to_string(),
        kind: SystemKind::WinDetection,
        deps: vec!["ball_system".to_string()],
    })
    .unwrap();
    s.finalize().unwrap();
    s.tick(&mut w, &InputSnapshot::default(), 1);
    let score = w.get_score();
    assert_eq!((score.left, score.right), (0, 1));
    assert_eq!(w.get_velocity(id).unwrap(), Velocity { dx: cfg.serve_speed, dy: 0 });
}

#[test]
fn world_component_access() {
    let mut w = World::new(sys_test_config());
    let p = w.spawn_paddle(Side::Left, 20, 100);
    let b = w.spawn_ball(400, 300, 6, 4);
    assert_eq!(w.entity_count(), 2);
    assert_eq!(w.get_transform(p), Some(Transform { x: 20, y: 100 }));
    assert_eq!(w.get_velocity(p), None);
    assert_eq!(w.get_velocity(b), Some(Velocity { dx: 6, dy: 4 }));
    assert_eq!(w.get_transform(7), None);
    assert_eq!(w.ids_with_paddle(), vec![p]);
    assert_eq!(w.ids_with_ball(), vec![b]);
    let score = w.get_score();
    assert_eq!((score.left, score.right), (0, 0));
}

#[test]
fn empty_schedule_ticks_are_no_ops() {
    let mut s = Scheduler::new();
    assert_eq!(s.finalize(), Ok(()));
    let mut w = World::new(sys_test_config());
    let id = w.spawn_ball(400, 300, 6, 4);
    s.tick(&mut w, &InputSnapshot::default(), 1);
    assert_eq!(w.get_transform(id).unwrap(), Transform { x: 400, y: 300 });
}

#[test]
fn absent_input_moves_no_paddle() {
    let mut w = World::new(sys_test_config());
    let id = w.spawn_paddle(Side::Left, 20, 300);
    let s = one_system("paddle_system", SystemKind::PaddleMovement);
    s.tick(&mut w, &InputSnapshot::default(), 5);
    assert_eq!(w.get_transform(id).unwrap().y, 300);
}

#[test]
fn opposed_controls_cancel() {
    let mut w = World::new(sys_test_config());
    let id = w.spawn_paddle(Side::Left, 20, 300);
    let s = one_system("paddle_system", SystemKind::PaddleMovement);
    let both = InputSnapshot { left_up: true, left_down: true, ..Default::default() };
    s.tick(&mut w, &both, 5);
    assert_eq!(w.get_transform(id).unwrap().y, 300);
}

#[test]
fn zero_delta_time_freezes_motion() {
    let mut w = World::new(sys_test_config());
    let p = w.spawn_paddle(Side::Left, 20, 300);
    let b = w.spawn_ball(400, 300, 6, 4);
    let s = full_schedule();
    let up = InputSnapshot { left_up: true, ..Default::default() };
    s.tick(&mut w, &up, 0);
    assert_eq!(w.get_transform(p).unwrap().y, 300);
    assert_eq!(w.get_transform(b).unwrap(), Transform { x: 400, y: 300 });
}

#[test]
fn every_ball_moves_each_tick() {
    let mut w = World::new(sys_test_config());
    let b1 = w.spawn_ball(100, 100, 2, 1);
    let b2 = w.spawn_ball(700, 500, -3, -2);
    let s = one_system("ball_system", SystemKind::BallMotion);
    s.tick(&mut w, &InputSnapshot::default(), 1);
    assert_eq!(w.get_transform(b1).unwrap(), Transform { x: 102, y: 101 });
    assert_eq!(w.get_transform(b2).unwrap(), Transform { x: 697, y: 498 });
}

#[test]
fn wall_takes_priority_then_one_paddle_deflection() {
    // A ball overlapping both the top wall and a paddle in the same tick:
    // the wall check runs first and flips the vertical component once, the
    // paddle check then flips the horizontal component once.
    let cfg = sys_test_config();
    let mut w = World::new(cfg);
    w.spawn_paddle(Side::Left, 30, 0);
    let id = w.spawn_ball(40, 6, -6, -4);
    let s = one_system("collision_system", SystemKind::Bounce);
    s.tick(&mut w, &InputSnapshot::default(), 1);
    let t = w.get_transform(id).unwrap();
    let v = w.get_velocity(id).unwrap();
    // Wall: y repositioned to the radius, dy reflected to +4.
    assert_eq!(t.y, cfg.ball_radius);
    // Paddle: dx reflected and scaled by 11/10 (6 -> 6), dy nudged towards
    // the ball's offset from the paddle centre (8 - 32 -> -24 / 4 = -6).
    assert_eq!(v, Velocity { dx: 6, dy: -2 });
}

#[test]
fn set_components_update_in_place() {
    let mut w = World::new(sys_test_config());
    let p = w.spawn_paddle(Side::Left, 20, 300);
    let b = w.spawn_ball(400, 300, 6, 4);
    assert!(w.set_transform(p, Transform { x: 20, y: 100 }));
    assert!(w.set_velocity(b, Velocity { dx: -8, dy: 2 }));
    assert_eq!(w.get_transform(p).unwrap(), Transform { x: 20, y: 100 });
    assert_eq!(w.get_velocity(b).unwrap(), Velocity { dx: -8, dy: 2 });
    // A paddle has no velocity to set; out-of-range entities have nothing.
    assert!(!w.set_velocity(p, Velocity { dx: 1, dy: 1 }));
    assert!(!w.set_transform(9, Transform { x: 0, y: 0 }));
}

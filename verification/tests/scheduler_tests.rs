use pong_core::scheduler::{SchedError, Scheduler, SystemDescriptor};
use pong_core::systems::SystemKind;
use pong_core::world::{Config, InputSnapshot, World};

fn sched_test_config() -> Config {
    Config {
        arena_width: 800,
        arena_height: 600,
        paddle_width: 16,
        paddle_height: 64,
        paddle_speed: 4,
        ball_radius: 8,
        ball_min_speed: 2,
        ball_max_speed: 40,
        bounce_speedup_num: 11,
        bounce_speedup_den: 10,
        serve_speed: 10,
    }
}

fn desc(name: &str, kind: SystemKind, deps: &[&str]) -> SystemDescriptor {
    SystemDescriptor {
        name: name.to_string(),
        kind,
        deps: deps.iter().map(|d| d.to_string()).collect(),
    }
}

#[test]
fn register_duplicate_name_fails() {
    let mut s = Scheduler::new();
    assert_eq!(s.register(desc("paddle_system", SystemKind::PaddleMovement, &[])), Ok(()));
    assert_eq!(
        s.register(desc("paddle_system", SystemKind::BallMotion, &[])),
        Err(SchedError::DuplicateName)
    );
    // The other registration order fails just the same.
    let mut s2 = Scheduler::new();
    assert_eq!(s2.register(desc("paddle_system", SystemKind::BallMotion, &[])), Ok(()));
    assert_eq!(
        s2.register(desc("paddle_system", SystemKind::PaddleMovement, &[])),
        Err(SchedError::DuplicateName)
    );
}

#[test]
fn register_after_finalize_fails() {
    let mut s = Scheduler::new();
    assert_eq!(s.register(desc("ball_system", SystemKind::BallMotion, &[])), Ok(()));
    assert_eq!(s.finalize(), Ok(()));
    assert_eq!(
        s.register(desc("paddle_system", SystemKind::PaddleMovement, &[])),
        Err(SchedError::SchedulerFinalized)
    );
    assert_eq!(s.finalize(), Err(SchedError::SchedulerFinalized));
}

#[test]
fn finalize_unknown_dependency_fails() {
    let mut s = Scheduler::new();
    assert_eq!(
        s.register(desc("collision_system", SystemKind::Bounce, &["ball_system"])),
        Ok(())
    );
    assert_eq!(
        s.finalize(),
        Err(SchedError::UnknownDependency("ball_system".to_string()))
    );
    assert!(!s.is_finalized());
}

#[test]
fn finalize_cycle_fails() {
    let mut s = Scheduler::new();
    assert_eq!(s.register(desc("a", SystemKind::PaddleMovement, &["b"])), Ok(()));
    assert_eq!(s.register(desc("b", SystemKind::BallMotion, &["a"])), Ok(()));
    assert_eq!(
        s.finalize(),
        Err(SchedError::CyclicDependency(vec!["a".to_string(), "b".to_string()]))
    );
}

#[test]
fn finalize_self_cycle_fails() {
    let mut s = Scheduler::new();
    assert_eq!(s.register(desc("a", SystemKind::PaddleMovement, &["a"])), Ok(()));
    assert_eq!(s.finalize(), Err(SchedError::CyclicDependency(vec!["a".to_string()])));
}

#[test]
fn finalize_respects_dependencies() {
    // Register the collision system first: the greedy order must still
    // place both of its prerequisites before it.
    let mut s = Scheduler::new();
    assert_eq!(
        s.register(desc("collision_system", SystemKind::Bounce, &[
            "paddle_system",
            "ball_system",
        ])),
        Ok(())
    );
    assert_eq!(s.register(desc("paddle_system", SystemKind::PaddleMovement, &[])), Ok(()));
    assert_eq!(s.register(desc("ball_system", SystemKind::BallMotion, &[])), Ok(()));
    assert_eq!(s.register(desc("winner_system", SystemKind::WinDetection, &["ball_system"])), Ok(()));
    assert_eq!(s.finalize(), Ok(()));
    assert!(s.is_finalized());
    // Ties break by registration order: paddle (1) before ball (2), then
    // collision (0) becomes eligible before winner (3).
    assert_eq!(s.order, vec![1, 2, 0, 3]);
}

#[test]
fn finalize_acyclic_in_registration_order() {
    let mut s = Scheduler::new();
    assert_eq!(s.register(desc("paddle_system", SystemKind::PaddleMovement, &[])), Ok(()));
    assert_eq!(s.register(desc("ball_system", SystemKind::BallMotion, &[])), Ok(()));
    assert_eq!(
        s.register(desc("collision_system", SystemKind::Bounce, &[
            "paddle_system",
            "ball_system",
        ])),
        Ok(())
    );
    assert_eq!(s.register(desc("winner_system", SystemKind::WinDetection, &["ball_system"])), Ok(()));
    assert_eq!(s.finalize(), Ok(()));
    assert_eq!(s.order, vec![0, 1, 2, 3]);
}

fn sched_test_world() -> World {
    let cfg = sched_test_config();
    let mut w = World::new(cfg);
    w.spawn_paddle(pong_core::world::Side::Left, 20, 268);
    w.spawn_paddle(pong_core::world::Side::Right, 764, 268);
    w.spawn_ball(400, 300, 6, 4);
    w
}

#[test]
fn independent_systems_commute_through_schedules() {
    // Paddle movement and ball motion declare no dependency on each other:
    // registering them in either order yields the same world after a tick.
    let mut s1 = Scheduler::new();
    assert_eq!(s1.register(desc("paddle_system", SystemKind::PaddleMovement, &[])), Ok(()));
    assert_eq!(s1.register(desc("ball_system", SystemKind::BallMotion, &[])), Ok(()));
    assert_eq!(s1.finalize(), Ok(()));

    let mut s2 = Scheduler::new();
    assert_eq!(s2.register(desc("ball_system", SystemKind::BallMotion, &[])), Ok(()));
    assert_eq!(s2.register(desc("paddle_system", SystemKind::PaddleMovement, &[])), Ok(()));
    assert_eq!(s2.finalize(), Ok(()));

    let input = InputSnapshot { left_up: true, left_down: false, right_up: false, right_down: true };
    let mut w1 = sched_test_world();
    let mut w2 = sched_test_world();
    s1.tick(&mut w1, &input, 1);
    s2.tick(&mut w2, &input, 1);
    assert_eq!(w1, w2);
}

#[test]
fn identical_runs_are_bit_identical() {
    // Two independent runs over the same registration sequence, inputs and
    // delta times end in equal world state.
    let build = || {
        let mut s = Scheduler::new();
        s.register(desc("paddle_system", SystemKind::PaddleMovement, &[])).unwrap();
        s.register(desc("ball_system", SystemKind::BallMotion, &[])).unwrap();
        s.register(desc("collision_system", SystemKind::Bounce, &[
            "paddle_system",
            "ball_system",
        ]))
        .unwrap();
        s.register(desc("winner_system", SystemKind::WinDetection, &["ball_system"])).unwrap();
        s.finalize().unwrap();
        s
    };
    let s1 = build();
    let s2 = build();
    let mut inputs: Vec<InputSnapshot> = Vec::new();
    let mut dts: Vec<i64> = Vec::new();
    for t in 0..60 {
        inputs.push(InputSnapshot {
            left_up: t % 3 == 0,
            left_down: t % 5 == 0,
            right_up: t % 2 == 0,
            right_down: t % 7 == 0,
        });
        dts.push(1 + (t % 2) as i64);
    }
    let mut w1 = sched_test_world();
    let mut w2 = sched_test_world();
    pong_core::game_loop::run_ticks(&s1, &mut w1, &inputs, &dts);
    pong_core::game_loop::run_ticks(&s2, &mut w2, &inputs, &dts);
    assert_eq!(w1, w2);
}

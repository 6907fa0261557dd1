//! Tests of the seven-step pipeline, driven through the public tick entry
//! points with injected direction samples.

use pong::components::Ball;
use pong::components::Entity;
use pong::components::Input;
use pong::components::Paddle;
use pong::components::Position;
use pong::components::Score;
use pong::components::Shape;
use pong::components::Trigger;
use pong::components::Velocity;
use pong::math::Vector;
use pong::math::SCALE;
use pong::systems::BALL_DEFAULT_SPEED;
use pong::world::GameState;
use pong::world::State;
use pong::world::World;

const START_KEY: u32 = 99;
const LEFT_KEY: u32 = 1;
const RIGHT_KEY: u32 = 2;

fn ball_at(x: i64, y: i64, dir: Vector, speed: i64) -> Entity {
    let mut e = Entity::empty();
    e.position = Some(Position {
        current: Vector { x, y },
        default: Vector { x: SCALE / 2, y: SCALE / 2 },
    });
    e.velocity = Some(Velocity {
        direction: dir,
        speed,
        max_speed: 2 * SCALE,
    });
    e.shape = Some(Shape::Circle { radius: 50_000 });
    e.ball = Some(Ball);
    e
}

fn paddle_at(x: i64, y: i64, trigger: Trigger) -> Entity {
    let mut e = Entity::empty();
    e.position = Some(Position {
        current: Vector { x, y },
        default: Vector { x, y },
    });
    e.velocity = Some(Velocity {
        direction: Vector { x: 0, y: 0 },
        speed: 550_000,
        max_speed: 550_000,
    });
    e.shape = Some(Shape::Rectangle {
        width: 250_000,
        height: 50_000,
    });
    e.input = Some(Input::new(LEFT_KEY, RIGHT_KEY));
    e.score = Some(Score::new(trigger, Vector { x: SCALE, y: y }));
    e.paddle = Some(Paddle);
    e
}

fn running_world(entities: Vec<Entity>) -> World {
    let mut w = World::new(START_KEY);
    w.state = GameState(State::Running);
    w.entities = entities;
    w
}

#[test]
fn movement_integrates_forward_euler_exactly() {
    let mut w = running_world(vec![ball_at(
        SCALE / 2,
        SCALE / 2,
        Vector { x: 0, y: -SCALE },
        500_000,
    )]);
    // 0.1 s at 0.5 unit/s straight down: y falls by exactly 0.05 unit.
    w.update_with_bits(100_000, None, None, 0, 0);
    let p = w.entities[0].position.unwrap();
    assert_eq!(p.current, Vector { x: SCALE / 2, y: 450_000 });
    assert_eq!(w.state, GameState(State::Running));
}

#[test]
fn ball_bounces_off_the_side_wall() {
    let mut w = running_world(vec![ball_at(
        10_000,
        SCALE / 2,
        Vector { x: -SCALE, y: 0 },
        0,
    )]);
    w.update_with_bits(1, None, None, 0, 0);
    let e = &w.entities[0];
    assert_eq!(e.position.unwrap().current, Vector { x: 50_000, y: SCALE / 2 });
    assert_eq!(e.velocity.unwrap().direction, Vector { x: SCALE, y: 0 });
}

#[test]
fn paddle_stops_hard_at_the_side_wall() {
    let mut p = paddle_at(10_000, 25_000, Trigger::YBelow { threshold: 0 });
    p.velocity = Some(Velocity {
        direction: Vector { x: -SCALE, y: 0 },
        speed: 0,
        max_speed: 550_000,
    });
    let mut w = running_world(vec![p]);
    w.update_with_bits(1, None, None, 0, 0);
    let e = &w.entities[0];
    // Clamped back by the half width, and the horizontal direction zeroed.
    assert_eq!(e.position.unwrap().current, Vector { x: 125_000, y: 25_000 });
    assert_eq!(e.velocity.unwrap().direction, Vector { x: 0, y: 0 });
}

#[test]
fn containment_leaves_in_bounds_entity_alone_twice() {
    let start = ball_at(SCALE / 2, SCALE / 2, Vector { x: 0, y: 0 }, 0);
    let mut w = running_world(vec![start]);
    w.update_with_bits(100_000, None, None, 0, 0);
    let once = w.entities[0];
    w.update_with_bits(100_000, None, None, 0, 0);
    let twice = w.entities[0];
    assert_eq!(once.position, start.position);
    assert_eq!(once.velocity, start.velocity);
    assert_eq!(twice.position, once.position);
    assert_eq!(twice.velocity, once.velocity);
}

#[test]
fn resolved_collision_flips_bumps_and_untags() {
    // Ball resting just above the paddle, overlapping it.
    let ball = ball_at(SCALE / 2, 100_000, Vector { x: 0, y: -SCALE }, 500_000);
    let paddle = paddle_at(SCALE / 2, 50_000, Trigger::YBelow { threshold: -SCALE });
    let mut w = running_world(vec![ball, paddle]);
    w.update_with_bits(1, None, None, 0, 0);
    let e = &w.entities[0];
    let v = e.velocity.unwrap();
    // Vertical direction inverted, speed raised by a tenth, tag removed.
    assert_eq!(v.direction, Vector { x: 0, y: SCALE });
    assert_eq!(v.speed, 550_000);
    assert_eq!(e.collision, None);
    assert_eq!(w.state, GameState(State::Running));
}

#[test]
fn consecutive_hits_bump_speed_monotonically() {
    // With dt == 1 the truncated displacement is zero, so the ball never
    // leaves the paddle: every tick resolves one collision and the speed
    // climbs by exactly a (truncated) tenth per hit, never past the cap.
    let ball = ball_at(SCALE / 2, 100_000, Vector { x: 0, y: -SCALE }, 500_000);
    let paddle = paddle_at(SCALE / 2, 50_000, Trigger::YBelow { threshold: -SCALE });
    let mut w = running_world(vec![ball, paddle]);
    let mut expected: i64 = 500_000;
    for _ in 0..30 {
        w.update_with_bits(1, None, None, 0, 0);
        expected = (expected * 11 / 10).min(2 * SCALE);
        let v = w.entities[0].velocity.unwrap();
        assert_eq!(v.speed, expected);
        assert!(v.speed <= v.max_speed);
    }
    // Thirty tenths more than overrun the cap: the speed has saturated.
    assert_eq!(w.entities[0].velocity.unwrap().speed, 2 * SCALE);
}

#[test]
fn speed_saturates_at_the_cap() {
    let mut ball = ball_at(SCALE / 2, 100_000, Vector { x: 0, y: -SCALE }, 500_000);
    ball.velocity = Some(Velocity {
        direction: Vector { x: 0, y: -SCALE },
        speed: 1_900_000,
        max_speed: 2_000_000,
    });
    let paddle = paddle_at(SCALE / 2, 50_000, Trigger::YBelow { threshold: -SCALE });
    let mut w = running_world(vec![ball, paddle]);
    w.update_with_bits(1, None, None, 0, 0);
    // 1.9 * 1.1 would exceed the cap: the speed lands exactly on it.
    assert_eq!(w.entities[0].velocity.unwrap().speed, 2_000_000);
}

#[test]
fn score_event_resets_world_and_restarts_ball() {
    let ball = ball_at(SCALE / 2, -10_000, Vector { x: 0, y: -SCALE }, 500_000);
    let bottom = paddle_at(SCALE / 2, 25_000, Trigger::YBelow { threshold: 0 });
    let top = paddle_at(SCALE / 2, 975_000, Trigger::YAbove { threshold: SCALE });
    let mut w = running_world(vec![ball, bottom, top]);
    // The sample words pick x = 0 and y = 5 units; normalized: (0, SCALE).
    w.update_with_bits(1, None, None, 1_000_000, 10_000_000);
    assert_eq!(w.state, GameState(State::Idle));
    // The first paddle whose trigger fires scores; the other does not.
    assert_eq!(w.entities[1].score.unwrap().current, 1);
    assert_eq!(w.entities[2].score.unwrap().current, 0);
    // Every position is back at its default.
    for e in &w.entities {
        let p = e.position.unwrap();
        assert_eq!(p.current, p.default);
    }
    // The ball restarts with the sampled direction at the restart speed.
    let v = w.entities[0].velocity.unwrap();
    assert_eq!(v.direction, Vector { x: 0, y: SCALE });
    assert_eq!(v.speed, BALL_DEFAULT_SPEED);
    // Paddle velocities are untouched.
    assert_eq!(w.entities[1].velocity.unwrap().speed, 550_000);
}

#[test]
fn idle_tick_changes_no_entity_and_keeps_events_pending() {
    let ball = ball_at(SCALE / 2, SCALE / 2, Vector { x: 0, y: -SCALE }, 500_000);
    let paddle = paddle_at(SCALE / 2, 25_000, Trigger::YBelow { threshold: 0 });
    let mut w = World::new(START_KEY);
    w.entities = vec![ball, paddle];
    let before = w.entities.clone();
    w.update_with_bits(100_000, Some(RIGHT_KEY), Some(LEFT_KEY), 3, 4);
    assert_eq!(w.state, GameState(State::Idle));
    assert_eq!(w.entities, before);
    // The single-slot events survive until a running tick consumes them.
    assert_eq!(w.pending_press, Some(RIGHT_KEY));
    assert_eq!(w.pending_release, Some(LEFT_KEY));
}

#[test]
fn start_release_starts_and_never_reaches_inputs() {
    let mut paddle = paddle_at(SCALE / 2, 25_000, Trigger::YBelow { threshold: 0 });
    // A paddle whose left key happens to equal the start key, already pressed:
    // the intercepted start release must not clear it.
    paddle.input = Some(Input {
        key_right: RIGHT_KEY,
        key_left: START_KEY,
        right: false,
        left: true,
    });
    let mut w = World::new(START_KEY);
    w.entities = vec![paddle];
    w.update_with_bits(100_000, None, Some(START_KEY), 0, 0);
    assert_eq!(w.state, GameState(State::Running));
    assert_eq!(w.pending_release, None);
    assert!(w.entities[0].input.unwrap().left);
}

#[test]
fn pressed_key_routes_to_matching_paddle_only() {
    let paddle = paddle_at(SCALE / 2, 25_000, Trigger::YBelow { threshold: 0 });
    let mut other = paddle_at(SCALE / 2, 975_000, Trigger::YAbove { threshold: SCALE });
    other.input = Some(Input::new(11, 12));
    let mut w = running_world(vec![paddle, other]);
    w.update_with_bits(100_000, Some(RIGHT_KEY), None, 0, 0);
    let inp = w.entities[0].input.unwrap();
    assert!(inp.right && !inp.left);
    let v = w.entities[0].velocity.unwrap();
    assert_eq!(v.direction, Vector { x: SCALE, y: 0 });
    // 0.1 s at 0.55 unit/s to the right.
    assert_eq!(
        w.entities[0].position.unwrap().current,
        Vector { x: SCALE / 2 + 55_000, y: 25_000 }
    );
    // The other paddle's keys do not match: no flag, no motion.
    let other_inp = w.entities[1].input.unwrap();
    assert!(!other_inp.right && !other_inp.left);
    assert_eq!(w.entities[1].velocity.unwrap().direction, Vector { x: 0, y: 0 });
}

#[test]
fn both_keys_pressed_give_zero_direction() {
    let paddle = paddle_at(SCALE / 2, 25_000, Trigger::YBelow { threshold: 0 });
    let mut w = running_world(vec![paddle]);
    w.update_with_bits(1, Some(RIGHT_KEY), None, 0, 0);
    w.update_with_bits(1, Some(LEFT_KEY), None, 0, 0);
    // Both flags are now set: the direction falls back to zero.
    let inp = w.entities[0].input.unwrap();
    assert!(inp.right && inp.left);
    assert_eq!(
        w.entities[0].velocity.unwrap().direction,
        Vector { x: 0, y: 0 }
    );
}

#[test]
fn zero_dt_is_a_true_noop_for_motion_and_collision() {
    // Ball overlapping a paddle: with dt == 0 there must be no flip, no bump,
    // no clamp and no motion.
    let ball = ball_at(SCALE / 2, 100_000, Vector { x: 0, y: -SCALE }, 500_000);
    let paddle = paddle_at(SCALE / 2, 50_000, Trigger::YBelow { threshold: -SCALE });
    let mut w = running_world(vec![ball, paddle]);
    let before = w.entities.clone();
    w.update_with_bits(0, None, None, 0, 0);
    assert_eq!(w.entities, before);
    assert_eq!(w.state, GameState(State::Running));
}

#[test]
fn identical_runs_are_identical() {
    let make = || {
        running_world(vec![
            ball_at(SCALE / 2, SCALE / 2, Vector { x: 0, y: -SCALE }, 500_000),
            paddle_at(SCALE / 2, 25_000, Trigger::YBelow { threshold: 0 }),
        ])
    };
    let mut a = make();
    let mut b = make();
    for _ in 0..20 {
        a.update_with_bits(100_000, None, None, 7, 8);
        b.update_with_bits(100_000, None, None, 7, 8);
    }
    assert_eq!(a.entities, b.entities);
    assert_eq!(a.state, b.state);
}

#[test]
fn runs_differ_only_in_sampled_direction_without_score() {
    let make = || {
        running_world(vec![ball_at(
            SCALE / 2,
            SCALE / 2,
            Vector { x: 0, y: -SCALE },
            500_000,
        )])
    };
    let mut a = make();
    let mut b = make();
    // No score entity exists, so no reset samples the source: the random
    // words cannot matter.
    for _ in 0..5 {
        a.update_with_bits(100_000, None, None, 1, 2);
        b.update_with_bits(100_000, None, None, 1_000_000_007, 4);
    }
    assert_eq!(a.entities, b.entities);
}

#[test]
fn update_draws_its_own_sample() {
    // The ambient-randomness entry point must behave like the injected one on
    // a tick with no score event.
    let mut w = running_world(vec![ball_at(
        SCALE / 2,
        SCALE / 2,
        Vector { x: 0, y: -SCALE },
        500_000,
    )]);
    w.update(100_000, None, None);
    let p = w.entities[0].position.unwrap();
    assert_eq!(p.current, Vector { x: SCALE / 2, y: 450_000 });
}

#[test]
fn snapshot_reads_match_the_store() {
    let ball = ball_at(SCALE / 2, SCALE / 2, Vector { x: 0, y: -SCALE }, 500_000);
    let paddle = paddle_at(SCALE / 2, 25_000, Trigger::YBelow { threshold: 0 });
    let mut bare = Entity::empty();
    bare.score = Some(Score::new(
        Trigger::YAbove { threshold: SCALE },
        Vector { x: 0, y: 0 },
    ));
    let w = running_world(vec![ball, paddle, bare]);
    assert_eq!(w.current_state(), State::Running);
    let drawn = w.drawables();
    assert_eq!(drawn.len(), 2);
    assert_eq!(drawn[0].0, ball.position.unwrap());
    assert_eq!(drawn[0].1, ball.shape.unwrap());
    assert_eq!(drawn[1].0, paddle.position.unwrap());
    let board = w.scoreboard();
    assert_eq!(board.len(), 2);
    assert_eq!(board[0], (0, Vector { x: SCALE, y: 25_000 }));
    assert_eq!(board[1], (0, Vector { x: 0, y: 0 }));
}

#[test]
fn score_while_idle_still_scores() {
    // Score computation runs in every state: an idle world whose ball sits
    // beyond a goal line still produces the score event.
    let ball = ball_at(SCALE / 2, -10_000, Vector { x: 0, y: 0 }, 0);
    let paddle = paddle_at(SCALE / 2, 25_000, Trigger::YBelow { threshold: 0 });
    let mut w = World::new(START_KEY);
    w.entities = vec![ball, paddle];
    w.update_with_bits(100_000, None, None, 1_000_000, 10_000_000);
    assert_eq!(w.state, GameState(State::Idle));
    assert_eq!(w.entities[1].score.unwrap().current, 1);
    let p = w.entities[0].position.unwrap();
    assert_eq!(p.current, p.default);
}

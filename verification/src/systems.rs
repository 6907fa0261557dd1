//! The seven-step pipeline, one function per step, each verified against a
//! functional stage specification over the world model.
//!
//! Order per tick: input update, input apply, movement integration, boundary
//! containment, collision detection, collision resolution, score computation.
//! The `Idle`/`Running` gate disables the first six steps while `Idle`; score
//! computation always runs.  A tick with `dt == 0` is a true no-op for the
//! motion and collision steps.
//!
//! Each step reads the entity column it transforms and builds the replacement
//! column aside, swapping it in at one point when the pass is over: no
//! component table is ever mutated while it is being iterated.

use crate::components::Ball;
use crate::components::Collision;
use crate::components::Entity;
use crate::components::Input;
use crate::components::Position;
use crate::components::Score;
use crate::components::Shape;
use crate::components::Velocity;
use crate::components::SPEED_LIMIT;
use crate::math::abs_i;
use crate::math::lemma_scaled_mul_abs;
use crate::math::lemma_scaled_mul_unit;
use crate::math::scaled_mul;
use crate::math::Vector;
use crate::math::SCALE;
use crate::world::entities_wf;
use crate::world::entity_pos_bounded;
use crate::world::entity_wf;
use crate::world::positions_bounded;
use crate::world::scores_countable;
use crate::world::State;
use crate::world::World;
use crate::world::WorldView;
use crate::world::DISP_LIMIT;
use crate::world::DT_LIMIT;
use crate::world::POS_LIMIT;
use vstd::arithmetic::div_mod::lemma_div_is_ordered;
use vstd::arithmetic::mul::lemma_mul_inequality;
use vstd::prelude::*;

verus! {

/// Speed the ball restarts at after a score event.
pub const BALL_DEFAULT_SPEED: i64 = 500_000;

/// Position magnitude the pipeline steps accept; a whole tick keeps positions
/// well under it when they start within [`POS_LIMIT`].
pub open spec fn pos_step_bound() -> int {
    POS_LIMIT as int + 2 * (DISP_LIMIT as int)
}

// ---------------------------------------------------------------------------
// Input update
// ---------------------------------------------------------------------------

/// A press event `key` lands on one entity: each pressed flag whose bound key
/// equals `key` is set.
pub open spec fn press_entity(e: Entity, key: u32) -> Entity {
    match e.input {
        Some(inp) => {
            let r = if key == inp.key_right {
                true
            } else {
                inp.right
            };
            let l = if key == inp.key_left {
                true
            } else {
                inp.left
            };
            Entity { input: Some(Input { right: r, left: l, ..inp }), ..e }
        },
        None => e,
    }
}

/// A release event `key` lands on one entity: each pressed flag whose bound
/// key equals `key` is cleared.
pub open spec fn release_entity(e: Entity, key: u32) -> Entity {
    match e.input {
        Some(inp) => {
            let r = if key == inp.key_right {
                false
            } else {
                inp.right
            };
            let l = if key == inp.key_left {
                false
            } else {
                inp.left
            };
            Entity { input: Some(Input { right: r, left: l, ..inp }), ..e }
        },
        None => e,
    }
}

/// One entity consumes the pending press, then the pending release.
pub open spec fn input_update_entity(e: Entity, press: Option<u32>, release: Option<u32>) -> Entity {
    let e1 = match press {
        Some(k) => press_entity(e, k),
        None => e,
    };
    match release {
        Some(k) => release_entity(e1, k),
        None => e1,
    }
}

/// Input update: while `Running`, deliver the pending events to every input
/// component and clear both slots; a no-op (slots kept) while `Idle`.
pub open spec fn stage_input_update(w: WorldView) -> WorldView {
    if w.state == State::Running {
        WorldView {
            pending_press: None,
            pending_release: None,
            entities: Seq::new(
                w.entities.len(),
                |i: int| input_update_entity(w.entities[i], w.pending_press, w.pending_release),
            ),
            ..w
        }
    } else {
        w
    }
}

fn input_update_entity_exec(e: Entity, press: Option<u32>, release: Option<u32>) -> (r: Entity)
    ensures
        r == input_update_entity(e, press, release),
{
    let mut e1 = e;
    if let Some(k) = press {
        if let Some(inp) = e1.input {
            let mut inp2 = inp;
            if k == inp2.key_right {
                inp2.right = true;
            }
            if k == inp2.key_left {
                inp2.left = true;
            }
            e1.input = Some(inp2);
        }
    }
    if let Some(k) = release {
        if let Some(inp) = e1.input {
            let mut inp2 = inp;
            if k == inp2.key_right {
                inp2.right = false;
            }
            if k == inp2.key_left {
                inp2.left = false;
            }
            e1.input = Some(inp2);
        }
    }
    e1
}

/// Step one of the pipeline.
pub struct InputUpdate;

impl InputUpdate {
    pub fn run(w: &mut World)
        requires
            entities_wf(old(w)@.entities),
            scores_countable(old(w)@.entities),
        ensures
            final(w)@ == stage_input_update(old(w)@),
            entities_wf(final(w)@.entities),
            scores_countable(final(w)@.entities),
            forall|k: int|
                0 <= k < final(w)@.entities.len() ==> (#[trigger] final(w)@.entities[k]).position
                    == old(w)@.entities[k].position,
    {
        match w.state.0 {
            State::Idle => {
                return ;
            },
            State::Running => {},
        }
        let press = w.pending_press;
        let release = w.pending_release;
        let n = w.entities.len();
        let mut out: Vec<Entity> = Vec::new();
        let mut i: usize = 0;
        while i < n
            invariant
                i <= n,
                n == w.entities@.len(),
                out@.len() == i,
                entities_wf(w.entities@),
                scores_countable(w.entities@),
                forall|k: int|
                    0 <= k < i ==> #[trigger] out@[k] == input_update_entity(
                        w.entities@[k],
                        press,
                        release,
                    ),
            decreases n - i,
        {
            let e = w.entities[i];
            out.push(input_update_entity_exec(e, press, release));
            i += 1;
        }
        w.pending_press = None;
        w.pending_release = None;
        w.entities = out;
        proof {
            assert(w@.entities =~= stage_input_update(old(w)@).entities);
            assert(w@ =~= stage_input_update(old(w)@));
            assert forall|k: int| 0 <= k < w@.entities.len() implies entity_wf(
                #[trigger] w@.entities[k],
            ) && (w@.entities[k].score matches Some(sc) ==> sc.current < u32::MAX)
                && w@.entities[k].position == old(w)@.entities[k].position by {
                assert(entity_wf(old(w)@.entities[k]));
            }
        }
    }
}

// ---------------------------------------------------------------------------
// Input apply
// ---------------------------------------------------------------------------

/// The pressed flags choose one of three directions: right alone gives
/// `(1, 0)`, left alone gives `(-1, 0)`, anything else gives zero.  The speed
/// is untouched.
pub open spec fn input_apply_entity(e: Entity) -> Entity {
    match (e.input, e.velocity) {
        (Some(inp), Some(v)) => {
            let d = if inp.right && !inp.left {
                Vector { x: SCALE, y: 0 }
            } else if inp.left && !inp.right {
                Vector { x: (-SCALE) as i64, y: 0 }
            } else {
                Vector { x: 0, y: 0 }
            };
            Entity { velocity: Some(Velocity { direction: d, ..v }), ..e }
        },
        _ => e,
    }
}

/// Input apply: while `Running`, recompute the direction of every entity with
/// both an input and a velocity; a no-op while `Idle`.
pub open spec fn stage_input_apply(w: WorldView) -> WorldView {
    if w.state == State::Running {
        WorldView {
            entities: Seq::new(w.entities.len(), |i: int| input_apply_entity(w.entities[i])),
            ..w
        }
    } else {
        w
    }
}

fn input_apply_entity_exec(e: Entity) -> (r: Entity)
    requires
        entity_wf(e),
    ensures
        r == input_apply_entity(e),
        entity_wf(r),
{
    let mut e1 = e;
    if let (Some(inp), Some(v)) = (e1.input, e1.velocity) {
        let d = if inp.right && !inp.left {
            Vector { x: SCALE, y: 0 }
        } else if inp.left && !inp.right {
            Vector { x: -SCALE, y: 0 }
        } else {
            Vector { x: 0, y: 0 }
        };
        let mut v2 = v;
        v2.direction = d;
        e1.velocity = Some(v2);
    }
    e1
}

/// Step two of the pipeline.
pub struct InputApply;

impl InputApply {
    pub fn run(w: &mut World)
        requires
            entities_wf(old(w)@.entities),
            scores_countable(old(w)@.entities),
        ensures
            final(w)@ == stage_input_apply(old(w)@),
            entities_wf(final(w)@.entities),
            scores_countable(final(w)@.entities),
            forall|k: int|
                0 <= k < final(w)@.entities.len() ==> (#[trigger] final(w)@.entities[k]).position
                    == old(w)@.entities[k].position,
    {
        match w.state.0 {
            State::Idle => {
                return ;
            },
            State::Running => {},
        }
        let n = w.entities.len();
        let mut out: Vec<Entity> = Vec::new();
        let mut i: usize = 0;
        while i < n
            invariant
                i <= n,
                n == w.entities@.len(),
                out@.len() == i,
                entities_wf(w.entities@),
                scores_countable(w.entities@),
                forall|k: int|
                    0 <= k < i ==> #[trigger] out@[k] == input_apply_entity(w.entities@[k]),
                forall|k: int| 0 <= k < i ==> entity_wf(#[trigger] out@[k]),
            decreases n - i,
        {
            let e = w.entities[i];
            proof {
                assert(entity_wf(w.entities@[i as int]));
            }
            out.push(input_apply_entity_exec(e));
            i += 1;
        }
        w.entities = out;
        proof {
            assert(w@.entities =~= stage_input_apply(old(w)@).entities);
            assert(w@ =~= stage_input_apply(old(w)@));
            assert forall|k: int| 0 <= k < w@.entities.len() implies (
            #[trigger] w@.entities[k].score matches Some(sc) ==> sc.current < u32::MAX)
                && w@.entities[k].position == old(w)@.entities[k].position by {
                assert(entity_wf(old(w)@.entities[k]));
            }
        }
    }
}

// ---------------------------------------------------------------------------
// Movement integration
// ---------------------------------------------------------------------------

/// Forward Euler: the position advances by `direction * speed * dt`, each
/// product truncated toward zero.
pub open spec fn movement_entity(e: Entity, dt: int) -> Entity {
    match (e.position, e.velocity) {
        (Some(p), Some(v)) => {
            let dx = scaled_mul(scaled_mul(v.direction.x as int, v.speed as int), dt);
            let dy = scaled_mul(scaled_mul(v.direction.y as int, v.speed as int), dt);
            Entity {
                position: Some(
                    Position {
                        current: Vector {
                            x: (p.current.x + dx) as i64,
                            y: (p.current.y + dy) as i64,
                        },
                        ..p
                    },
                ),
                ..e
            }
        },
        _ => e,
    }
}

/// Movement: while `Running` and `dt != 0`, integrate every entity with a
/// position and a velocity; otherwise a true no-op.
pub open spec fn stage_movement(w: WorldView, dt: int) -> WorldView {
    if w.state == State::Running && dt != 0 {
        WorldView {
            entities: Seq::new(w.entities.len(), |i: int| movement_entity(w.entities[i], dt)),
            ..w
        }
    } else {
        w
    }
}

/// A displacement computed from a well-formed velocity over one tick stays
/// within [`DISP_LIMIT`].
pub proof fn lemma_disp_bounded(dir: int, speed: int, dt: int)
    requires
        -SCALE <= dir <= SCALE,
        0 <= speed <= SPEED_LIMIT,
        0 <= dt <= DT_LIMIT,
    ensures
        abs_i(scaled_mul(dir, speed)) <= speed,
        abs_i(scaled_mul(scaled_mul(dir, speed), dt)) <= DISP_LIMIT,
{
    lemma_scaled_mul_unit(dir, speed);
    lemma_scaled_mul_abs(scaled_mul(dir, speed), dt, speed);
    lemma_mul_inequality(speed, SPEED_LIMIT as int, dt);
    lemma_mul_inequality(dt, DT_LIMIT as int, SPEED_LIMIT as int);
    lemma_div_is_ordered(speed * dt, SPEED_LIMIT as int * DT_LIMIT as int, SCALE as int);
    assert((1_000_000_000_000int * 3_600_000_000int) / 1_000_000int
        == 3_600_000_000_000_000int) by (nonlinear_arith);
}

fn movement_entity_exec(e: Entity, dt: i64) -> (r: Entity)
    requires
        entity_wf(e),
        entity_pos_bounded(e, pos_step_bound()),
        0 <= dt <= DT_LIMIT,
    ensures
        r == movement_entity(e, dt as int),
        entity_wf(r),
        entity_pos_bounded(r, pos_step_bound() + DISP_LIMIT as int),
{
    let mut e1 = e;
    if let (Some(p), Some(v)) = (e1.position, e1.velocity) {
        proof {
            lemma_disp_bounded(v.direction.x as int, v.speed as int, dt as int);
            lemma_disp_bounded(v.direction.y as int, v.speed as int, dt as int);
        }
        let disp = v.direction.mul(v.speed).mul(dt);
        let mut p2 = p;
        p2.current = p.current.add(disp);
        e1.position = Some(p2);
    }
    e1
}

/// Step three of the pipeline.
pub struct Movement;

impl Movement {
    pub fn run(w: &mut World, dt: i64)
        requires
            entities_wf(old(w)@.entities),
            scores_countable(old(w)@.entities),
            positions_bounded(old(w)@.entities, pos_step_bound()),
            0 <= dt <= DT_LIMIT,
        ensures
            final(w)@ == stage_movement(old(w)@, dt as int),
            entities_wf(final(w)@.entities),
            scores_countable(final(w)@.entities),
            positions_bounded(final(w)@.entities, pos_step_bound() + DISP_LIMIT as int),
    {
        match w.state.0 {
            State::Idle => {
                return ;
            },
            State::Running => {},
        }
        if dt == 0 {
            return ;
        }
        let n = w.entities.len();
        let mut out: Vec<Entity> = Vec::new();
        let mut i: usize = 0;
        while i < n
            invariant
                i <= n,
                n == w.entities@.len(),
                out@.len() == i,
                entities_wf(w.entities@),
                scores_countable(w.entities@),
                positions_bounded(w.entities@, pos_step_bound()),
                0 < dt <= DT_LIMIT,
                forall|k: int|
                    0 <= k < i ==> #[trigger] out@[k] == movement_entity(
                        w.entities@[k],
                        dt as int,
                    ),
                forall|k: int|
                    0 <= k < i ==> entity_wf(#[trigger] out@[k]) && entity_pos_bounded(
                        out@[k],
                        pos_step_bound() + DISP_LIMIT as int,
                    ),
            decreases n - i,
        {
            let e = w.entities[i];
            proof {
                assert(entity_wf(w.entities@[i as int]));
                assert(entity_pos_bounded(w.entities@[i as int], pos_step_bound()));
            }
            out.push(movement_entity_exec(e, dt));
            i += 1;
        }
        w.entities = out;
        proof {
            assert(w@.entities =~= stage_movement(old(w)@, dt as int).entities);
            assert(w@ =~= stage_movement(old(w)@, dt as int));
            assert forall|k: int| 0 <= k < w@.entities.len() implies (
            #[trigger] w@.entities[k].score matches Some(sc) ==> sc.current < u32::MAX) by {
                assert(entity_wf(old(w)@.entities[k]));
                assert(w@.entities[k] == movement_entity(old(w)@.entities[k], dt as int));
            }
        }
    }
}

// ---------------------------------------------------------------------------
// Boundary containment
// ---------------------------------------------------------------------------

/// Containment of one entity on the x axis.  If the entity's horizontal
/// extent crosses `[0, SCALE]`, the position is clamped back using the
/// extent (checking the left wall first, then the right wall against the
/// already-corrected value), and the horizontal direction responds by role:
/// a ball bounces (inverts), a paddle stops hard (zeroes), an entity with
/// neither role keeps its direction.  The y axis is left alone: vertical
/// escape is the scoring condition.
pub open spec fn out_of_bound_entity(e: Entity) -> Entity {
    match (e.position, e.shape, e.velocity) {
        (Some(p), Some(sh), Some(v)) => {
            let ext = sh.half_extent_spec();
            if p.current.x - ext < 0 || p.current.x + ext > SCALE {
                let x1: int = if p.current.x - ext < 0 {
                    ext
                } else {
                    p.current.x as int
                };
                let x2: int = if x1 + ext > SCALE {
                    SCALE as int - ext
                } else {
                    x1
                };
                let d = if e.ball is Some {
                    Vector { x: (-(v.direction.x as int)) as i64, y: v.direction.y }
                } else if e.paddle is Some {
                    Vector { x: 0, y: v.direction.y }
                } else {
                    v.direction
                };
                Entity {
                    position: Some(
                        Position { current: Vector { x: x2 as i64, y: p.current.y }, ..p },
                    ),
                    velocity: Some(Velocity { direction: d, ..v }),
                    ..e
                }
            } else {
                e
            }
        },
        _ => e,
    }
}

/// Boundary containment: while `Running` and `dt != 0`, contain every entity
/// with a position, a shape and a velocity; otherwise a true no-op.
pub open spec fn stage_out_of_bound(w: WorldView, dt: int) -> WorldView {
    if w.state == State::Running && dt != 0 {
        WorldView {
            entities: Seq::new(w.entities.len(), |i: int| out_of_bound_entity(w.entities[i])),
            ..w
        }
    } else {
        w
    }
}

fn out_of_bound_entity_exec(e: Entity) -> (r: Entity)
    requires
        entity_wf(e),
        entity_pos_bounded(e, pos_step_bound()),
    ensures
        r == out_of_bound_entity(e),
        entity_wf(r),
        entity_pos_bounded(r, pos_step_bound()),
{
    let mut e1 = e;
    if let (Some(p), Some(sh), Some(v)) = (e1.position, e1.shape, e1.velocity) {
        let ext = sh.half_extent();
        if p.current.x - ext < 0 || p.current.x + ext > SCALE {
            let x1: i64 = if p.current.x - ext < 0 {
                ext
            } else {
                p.current.x
            };
            let x2: i64 = if x1 + ext > SCALE {
                SCALE - ext
            } else {
                x1
            };
            let d = if e1.ball.is_some() {
                Vector { x: -v.direction.x, y: v.direction.y }
            } else if e1.paddle.is_some() {
                Vector { x: 0, y: v.direction.y }
            } else {
                v.direction
            };
            let mut p2 = p;
            p2.current = Vector { x: x2, y: p.current.y };
            e1.position = Some(p2);
            let mut v2 = v;
            v2.direction = d;
            e1.velocity = Some(v2);
        }
    }
    e1
}

/// Step four of the pipeline.
pub struct OutOfBound;

impl OutOfBound {
    pub fn run(w: &mut World, dt: i64)
        requires
            entities_wf(old(w)@.entities),
            scores_countable(old(w)@.entities),
            positions_bounded(old(w)@.entities, pos_step_bound()),
            0 <= dt <= DT_LIMIT,
        ensures
            final(w)@ == stage_out_of_bound(old(w)@, dt as int),
            entities_wf(final(w)@.entities),
            scores_countable(final(w)@.entities),
            positions_bounded(final(w)@.entities, pos_step_bound()),
    {
        match w.state.0 {
            State::Idle => {
                return ;
            },
            State::Running => {},
        }
        if dt == 0 {
            return ;
        }
        let n = w.entities.len();
        let mut out: Vec<Entity> = Vec::new();
        let mut i: usize = 0;
        while i < n
            invariant
                i <= n,
                n == w.entities@.len(),
                out@.len() == i,
                entities_wf(w.entities@),
                scores_countable(w.entities@),
                positions_bounded(w.entities@, pos_step_bound()),
                forall|k: int|
                    0 <= k < i ==> #[trigger] out@[k] == out_of_bound_entity(w.entities@[k]),
                forall|k: int|
                    0 <= k < i ==> entity_wf(#[trigger] out@[k]) && entity_pos_bounded(
                        out@[k],
                        pos_step_bound(),
                    ),
            decreases n - i,
        {
            let e = w.entities[i];
            proof {
                assert(entity_wf(w.entities@[i as int]));
                assert(entity_pos_bounded(w.entities@[i as int], pos_step_bound()));
            }
            out.push(out_of_bound_entity_exec(e));
            i += 1;
        }
        w.entities = out;
        proof {
            assert(w@.entities =~= stage_out_of_bound(old(w)@, dt as int).entities);
            assert(w@ =~= stage_out_of_bound(old(w)@, dt as int));
            assert forall|k: int| 0 <= k < w@.entities.len() implies (
            #[trigger] w@.entities[k].score matches Some(sc) ==> sc.current < u32::MAX) by {
                assert(entity_wf(old(w)@.entities[k]));
                assert(w@.entities[k] == out_of_bound_entity(old(w)@.entities[k]));
            }
        }
    }
}

// ---------------------------------------------------------------------------
// Collision detection
// ---------------------------------------------------------------------------

/// The world-space rectangle of a paddle-tagged entity overlaps the circle
/// `(cx, cy, radius)`: the rectangle is the entity's rectangle shape centered
/// on its current position (odd extents round down).
pub open spec fn entity_world_rect_hits(pe: Entity, cx: int, cy: int, radius: int) -> bool {
    pe.paddle is Some && match (pe.position, pe.shape) {
        (Some(pp), Some(Shape::Rectangle { width, height })) => crate::math::collides_at(
            pp.current.x - (width as int) / 2,
            pp.current.y - (height as int) / 2,
            pp.current.x + (width as int) / 2,
            pp.current.y + (height as int) / 2,
            cx,
            cy,
            radius,
        ),
        _ => false,
    }
}

/// Some paddle-tagged rectangle entity overlaps the circle.
pub open spec fn hits_any_paddle(s: Seq<Entity>, cx: int, cy: int, radius: int) -> bool {
    exists|j: int| 0 <= j < s.len() && entity_world_rect_hits(#[trigger] s[j], cx, cy, radius)
}

/// Detection for one entity: a ball-tagged circle entity is given the
/// `Collision` tag exactly when some paddle rectangle overlaps it; the tag is
/// idempotent, and rectangle entities are never tagged.
pub open spec fn detect_entity(s: Seq<Entity>, e: Entity) -> Entity {
    match (e.position, e.shape) {
        (Some(p), Some(Shape::Circle { radius })) => {
            if e.ball is Some && hits_any_paddle(
                s,
                p.current.x as int,
                p.current.y as int,
                radius as int,
            ) {
                Entity { collision: Some(Collision), ..e }
            } else {
                e
            }
        },
        _ => e,
    }
}

/// Collision detection: while `Running` and `dt != 0`, tag every colliding
/// ball; otherwise a true no-op.
pub open spec fn stage_collision_detection(w: WorldView, dt: int) -> WorldView {
    if w.state == State::Running && dt != 0 {
        WorldView {
            entities: Seq::new(
                w.entities.len(),
                |i: int| detect_entity(w.entities, w.entities[i]),
            ),
            ..w
        }
    } else {
        w
    }
}

fn hits_any_paddle_exec(entities: &Vec<Entity>, center: Vector, radius: i64) -> (b: bool)
    requires
        entities_wf(entities@),
        positions_bounded(entities@, pos_step_bound()),
    ensures
        b == hits_any_paddle(entities@, center.x as int, center.y as int, radius as int),
{
    let n = entities.len();
    let mut j: usize = 0;
    while j < n
        invariant
            j <= n,
            n == entities@.len(),
            entities_wf(entities@),
            positions_bounded(entities@, pos_step_bound()),
            forall|l: int|
                0 <= l < j ==> !entity_world_rect_hits(
                    #[trigger] entities@[l],
                    center.x as int,
                    center.y as int,
                    radius as int,
                ),
        decreases n - j,
    {
        let pe = entities[j];
        proof {
            assert(entity_wf(entities@[j as int]));
            assert(entity_pos_bounded(entities@[j as int], pos_step_bound()));
        }
        if pe.paddle.is_some() {
            if let (Some(pp), Some(sh)) = (pe.position, pe.shape) {
                if let Shape::Rectangle { width, height } = sh {
                    let hw = ((width as u64) / 2) as i64;
                    let hh = ((height as u64) / 2) as i64;
                    let rect = crate::math::Rectangle {
                        bottom_left: Vector { x: pp.current.x - hw, y: pp.current.y - hh },
                        top_right: Vector { x: pp.current.x + hw, y: pp.current.y + hh },
                    };
                    let circle = crate::math::Circle { center, radius };
                    if crate::math::check_collision(rect, circle) {
                        proof {
                            assert(entity_world_rect_hits(
                                entities@[j as int],
                                center.x as int,
                                center.y as int,
                                radius as int,
                            ));
                        }
                        return true;
                    }
                }
            }
        }
        j += 1;
    }
    false
}

/// Step five of the pipeline.
pub struct CollisionDetection;

impl CollisionDetection {
    pub fn run(w: &mut World, dt: i64)
        requires
            entities_wf(old(w)@.entities),
            scores_countable(old(w)@.entities),
            positions_bounded(old(w)@.entities, pos_step_bound()),
            0 <= dt <= DT_LIMIT,
        ensures
            final(w)@ == stage_collision_detection(old(w)@, dt as int),
            entities_wf(final(w)@.entities),
            scores_countable(final(w)@.entities),
            positions_bounded(final(w)@.entities, pos_step_bound()),
    {
        match w.state.0 {
            State::Idle => {
                return ;
            },
            State::Running => {},
        }
        if dt == 0 {
            return ;
        }
        let n = w.entities.len();
        let mut out: Vec<Entity> = Vec::new();
        let mut i: usize = 0;
        while i < n
            invariant
                i <= n,
                n == w.entities@.len(),
                out@.len() == i,
                entities_wf(w.entities@),
                scores_countable(w.entities@),
                positions_bounded(w.entities@, pos_step_bound()),
                forall|k: int|
                    0 <= k < i ==> #[trigger] out@[k] == detect_entity(
                        w.entities@,
                        w.entities@[k],
                    ),
            decreases n - i,
        {
            let e = w.entities[i];
            let mut e2 = e;
            if e.ball.is_some() {
                if let (Some(p), Some(sh)) = (e.position, e.shape) {
                    if let Shape::Circle { radius } = sh {
                        if hits_any_paddle_exec(&w.entities, p.current, radius) {
                            e2.collision = Some(Collision);
                        }
                    }
                }
            }
            out.push(e2);
            i += 1;
        }
        w.entities = out;
        proof {
            assert(w@.entities =~= stage_collision_detection(old(w)@, dt as int).entities);
            assert(w@ =~= stage_collision_detection(old(w)@, dt as int));
            assert forall|k: int| 0 <= k < w@.entities.len() implies entity_wf(
                #[trigger] w@.entities[k],
            ) && (w@.entities[k].score matches Some(sc) ==> sc.current < u32::MAX)
                && entity_pos_bounded(w@.entities[k], pos_step_bound()) by {
                assert(entity_wf(old(w)@.entities[k]));
                assert(entity_pos_bounded(old(w)@.entities[k], pos_step_bound()));
                assert(w@.entities[k] == detect_entity(old(w)@.entities, old(w)@.entities[k]));
            }
        }
    }
}

// ---------------------------------------------------------------------------
// Collision resolution
// ---------------------------------------------------------------------------

/// The speed after one resolved hit: raised by a tenth (truncated), clamped
/// to the cap.
pub open spec fn bump_speed(speed: int, max: int) -> int {
    let s2 = (speed * 11) / 10;
    if s2 > max {
        max
    } else {
        s2
    }
}

/// Resolution of one entity carrying the `Collision` tag (with a position
/// and a velocity): the vertical direction inverts, the speed is bumped, one
/// vertical integration step with the updated velocity lands in the same
/// tick, and the tag is removed.
pub open spec fn resolve_entity(e: Entity, dt: int) -> Entity {
    match (e.collision, e.position, e.velocity) {
        (Some(Collision), Some(p), Some(v)) => {
            let d = Vector { x: v.direction.x, y: (-(v.direction.y as int)) as i64 };
            let s2 = bump_speed(v.speed as int, v.max_speed as int);
            let dy = scaled_mul(scaled_mul(d.y as int, s2), dt);
            Entity {
                position: Some(
                    Position {
                        current: Vector { x: p.current.x, y: (p.current.y + dy) as i64 },
                        ..p
                    },
                ),
                velocity: Some(Velocity { direction: d, speed: s2 as i64, ..v }),
                collision: None,
                ..e
            }
        },
        _ => e,
    }
}

/// Collision resolution: while `Running` and `dt != 0`, resolve every tagged
/// entity; otherwise a true no-op.
pub open spec fn stage_collision_resolution(w: WorldView, dt: int) -> WorldView {
    if w.state == State::Running && dt != 0 {
        WorldView {
            entities: Seq::new(w.entities.len(), |i: int| resolve_entity(w.entities[i], dt)),
            ..w
        }
    } else {
        w
    }
}

fn resolve_entity_exec(e: Entity, dt: i64) -> (r: Entity)
    requires
        entity_wf(e),
        entity_pos_bounded(e, pos_step_bound()),
        0 <= dt <= DT_LIMIT,
    ensures
        r == resolve_entity(e, dt as int),
        entity_wf(r),
        entity_pos_bounded(r, pos_step_bound() + DISP_LIMIT as int),
{
    let mut e1 = e;
    if e1.collision.is_some() {
        if let (Some(p), Some(v)) = (e1.position, e1.velocity) {
            let d = Vector { x: v.direction.x, y: -v.direction.y };
            let s11: u64 = (v.speed as u64) * 11;
            let sb: i64 = (s11 / 10) as i64;
            let s2: i64 = if sb > v.max_speed {
                v.max_speed
            } else {
                sb
            };
            assert(s2 == bump_speed(v.speed as int, v.max_speed as int));
            proof {
                lemma_disp_bounded(d.y as int, s2 as int, dt as int);
            }
            let disp = Vector { x: 0, y: d.y }.mul(s2).mul(dt);
            let mut p2 = p;
            p2.current = Vector { x: p.current.x, y: p.current.y + disp.y };
            e1.position = Some(p2);
            let mut v2 = v;
            v2.direction = d;
            v2.speed = s2;
            e1.velocity = Some(v2);
            e1.collision = None;
        }
    }
    e1
}

/// Step six of the pipeline.
pub struct CollisionResolution;

impl CollisionResolution {
    pub fn run(w: &mut World, dt: i64)
        requires
            entities_wf(old(w)@.entities),
            scores_countable(old(w)@.entities),
            positions_bounded(old(w)@.entities, pos_step_bound()),
            0 <= dt <= DT_LIMIT,
        ensures
            final(w)@ == stage_collision_resolution(old(w)@, dt as int),
            entities_wf(final(w)@.entities),
            scores_countable(final(w)@.entities),
            positions_bounded(final(w)@.entities, pos_step_bound() + DISP_LIMIT as int),
    {
        match w.state.0 {
            State::Idle => {
                return ;
            },
            State::Running => {},
        }
        if dt == 0 {
            return ;
        }
        let n = w.entities.len();
        let mut out: Vec<Entity> = Vec::new();
        let mut i: usize = 0;
        while i < n
            invariant
                i <= n,
                n == w.entities@.len(),
                out@.len() == i,
                entities_wf(w.entities@),
                scores_countable(w.entities@),
                positions_bounded(w.entities@, pos_step_bound()),
                0 < dt <= DT_LIMIT,
                forall|k: int|
                    0 <= k < i ==> #[trigger] out@[k] == resolve_entity(
                        w.entities@[k],
                        dt as int,
                    ),
                forall|k: int|
                    0 <= k < i ==> entity_wf(#[trigger] out@[k]) && entity_pos_bounded(
                        out@[k],
                        pos_step_bound() + DISP_LIMIT as int,
                    ),
            decreases n - i,
        {
            let e = w.entities[i];
            proof {
                assert(entity_wf(w.entities@[i as int]));
                assert(entity_pos_bounded(w.entities@[i as int], pos_step_bound()));
            }
            out.push(resolve_entity_exec(e, dt));
            i += 1;
        }
        w.entities = out;
        proof {
            assert(w@.entities =~= stage_collision_resolution(old(w)@, dt as int).entities);
            assert(w@ =~= stage_collision_resolution(old(w)@, dt as int));
            assert forall|k: int| 0 <= k < w@.entities.len() implies (
            #[trigger] w@.entities[k].score matches Some(sc) ==> sc.current < u32::MAX) by {
                assert(entity_wf(old(w)@.entities[k]));
                assert(w@.entities[k] == resolve_entity(old(w)@.entities[k], dt as int));
            }
        }
    }
}

// ---------------------------------------------------------------------------
// Score computation
// ---------------------------------------------------------------------------

/// Index of the first score component, from `j` on, whose trigger fires on
/// the position `p`.
pub open spec fn first_scoring_score(s: Seq<Entity>, p: Vector, j: int) -> Option<int>
    decreases s.len() - j,
{
    if j < 0 || j >= s.len() {
        None
    } else if s[j].score matches Some(sc) && sc.trigger.fires_spec(p) {
        Some(j)
    } else {
        first_scoring_score(s, p, j + 1)
    }
}

/// The first pair, in iteration order, of a ball-tagged positioned entity and
/// a score entity whose trigger fires on that ball's position: the outer
/// index ranges over balls from `i` on, the inner one over scores from the
/// start.  At most one such pair wins per tick.
pub open spec fn first_scoring_pair(s: Seq<Entity>, i: int) -> Option<(int, int)>
    decreases s.len() - i,
{
    if i < 0 || i >= s.len() {
        None
    } else {
        match (s[i].ball, s[i].position) {
            (Some(Ball), Some(p)) => match first_scoring_score(s, p.current, 0) {
                Some(j) => Some((i, j)),
                None => first_scoring_pair(s, i + 1),
            },
            _ => first_scoring_pair(s, i + 1),
        }
    }
}

/// A found score index is in range, carries a score, and its trigger fires.
pub proof fn lemma_first_score_props(s: Seq<Entity>, p: Vector, j: int)
    requires
        0 <= j,
    ensures
        first_scoring_score(s, p, j) matches Some(jj) ==> j <= jj < s.len() && (
        s[jj].score matches Some(sc) && sc.trigger.fires_spec(p)),
    decreases s.len() - j,
{
    if j < s.len() {
        if !(s[j].score matches Some(sc) && sc.trigger.fires_spec(p)) {
            lemma_first_score_props(s, p, j + 1);
        }
    }
}

/// A found pair is in range; the outer entity is a positioned ball, the inner
/// one carries a score whose trigger fires on the ball's position.
pub proof fn lemma_first_pair_props(s: Seq<Entity>, i: int)
    requires
        0 <= i,
    ensures
        first_scoring_pair(s, i) matches Some(pair) ==> i <= pair.0 < s.len() && 0 <= pair.1
            < s.len() && s[pair.0].ball is Some && (s[pair.0].position matches Some(p) && (
        s[pair.1].score matches Some(sc) && sc.trigger.fires_spec(p.current))),
    decreases s.len() - i,
{
    if 0 <= i < s.len() {
        match (s[i].ball, s[i].position) {
            (Some(Ball), Some(p)) => {
                match first_scoring_score(s, p.current, 0) {
                    Some(_) => {
                        lemma_first_score_props(s, p.current, 0);
                    },
                    None => {
                        lemma_first_pair_props(s, i + 1);
                    },
                }
            },
            _ => {
                lemma_first_pair_props(s, i + 1);
            },
        }
    }
}

/// The restart direction sampled from two machine words: x is drawn uniformly
/// from `[-1, 1]`, y from `[-5, 5]` (in arena units), and the vector is then
/// normalized.
pub open spec fn dir_from_bits(bits_x: u64, bits_y: u64) -> Vector {
    let x = bits_x as int % (2 * (SCALE as int) + 1) - SCALE as int;
    let y = bits_y as int % (10 * (SCALE as int) + 1) - 5 * (SCALE as int);
    Vector { x: crate::math::norm_x(x, y) as i64, y: crate::math::norm_y(x, y) as i64 }
}

/// The winning score entity's count rises by one.
pub open spec fn award_entity(e: Entity, scored: bool) -> Entity {
    if scored {
        match e.score {
            Some(sc) => Entity { score: Some(Score { current: (sc.current + 1) as u32, ..sc }), ..e },
            None => e,
        }
    } else {
        e
    }
}

/// The reset after a score event, on one entity: every position returns to
/// its stored default, and a ball's velocity restarts with the sampled
/// direction at the fixed restart speed.  Paddle velocities are untouched.
pub open spec fn reset_pass_entity(e: Entity, d: Vector) -> Entity {
    let e1 = match e.position {
        Some(p) => Entity { position: Some(Position { current: p.default, ..p }), ..e },
        None => e,
    };
    if e1.ball is Some {
        match e1.velocity {
            Some(v) => Entity {
                velocity: Some(Velocity { direction: d, speed: BALL_DEFAULT_SPEED, ..v }),
                ..e1
            },
            None => e1,
        }
    } else {
        e1
    }
}

/// Score computation, which runs in every state: the first firing
/// ball-and-score pair (if any) wins the tick, the state falls back to
/// `Idle`, the winner's count rises by one, every position resets to its
/// default, and each ball restarts with the sampled direction.
pub open spec fn stage_score(w: WorldView, bits_x: u64, bits_y: u64) -> WorldView {
    match first_scoring_pair(w.entities, 0) {
        None => w,
        Some(pair) => WorldView {
            state: State::Idle,
            entities: Seq::new(
                w.entities.len(),
                |k: int|
                    reset_pass_entity(
                        award_entity(w.entities[k], k == pair.1),
                        dir_from_bits(bits_x, bits_y),
                    ),
            ),
            ..w
        },
    }
}

fn dir_from_bits_exec(bits_x: u64, bits_y: u64) -> (d: Vector)
    ensures
        d == dir_from_bits(bits_x, bits_y),
        -SCALE <= d.x <= SCALE,
        -SCALE <= d.y <= SCALE,
{
    let xr: u64 = bits_x % 2_000_001;
    let x: i64 = (xr as i64) - SCALE;
    let yr: u64 = bits_y % 10_000_001;
    let y: i64 = (yr as i64) - 5 * SCALE;
    Vector { x, y }.normalize()
}

fn find_first_score(entities: &Vec<Entity>, p: Vector) -> (r: Option<usize>)
    ensures
        match r {
            Some(j) => first_scoring_score(entities@, p, 0) == Some(j as int),
            None => first_scoring_score(entities@, p, 0) is None,
        },
{
    let n = entities.len();
    let mut j: usize = 0;
    while j < n
        invariant
            j <= n,
            n == entities@.len(),
            first_scoring_score(entities@, p, 0) == first_scoring_score(entities@, p, j as int),
        decreases n - j,
    {
        let e = entities[j];
        if let Some(sc) = e.score {
            if sc.trigger.fires(p) {
                return Some(j);
            }
        }
        j += 1;
    }
    None
}

fn find_first_pair(entities: &Vec<Entity>) -> (r: Option<(usize, usize)>)
    ensures
        match r {
            Some(pair) => first_scoring_pair(entities@, 0) == Some(
                (pair.0 as int, pair.1 as int),
            ),
            None => first_scoring_pair(entities@, 0) is None,
        },
{
    let n = entities.len();
    let mut i: usize = 0;
    while i < n
        invariant
            i <= n,
            n == entities@.len(),
            first_scoring_pair(entities@, 0) == first_scoring_pair(entities@, i as int),
        decreases n - i,
    {
        let e = entities[i];
        if e.ball.is_some() {
            if let Some(p) = e.position {
                match find_first_score(entities, p.current) {
                    Some(j) => {
                        return Some((i, j));
                    },
                    None => {},
                }
            }
        }
        i += 1;
    }
    None
}

fn reset_pass_entity_exec(e: Entity, d: Vector) -> (r: Entity)
    requires
        entity_wf(e),
        -SCALE <= d.x <= SCALE,
        -SCALE <= d.y <= SCALE,
    ensures
        r == reset_pass_entity(e, d),
        entity_wf(r),
{
    let mut e1 = e;
    if let Some(p) = e1.position {
        let mut p2 = p;
        p2.current = p.default;
        e1.position = Some(p2);
    }
    if e1.ball.is_some() {
        if let Some(v) = e1.velocity {
            let mut v2 = v;
            v2.direction = d;
            v2.speed = BALL_DEFAULT_SPEED;
            e1.velocity = Some(v2);
        }
    }
    e1
}

// ---------------------------------------------------------------------------
// Position bounds across the stages
// ---------------------------------------------------------------------------

/// A position bound is preserved under weakening.
pub proof fn lemma_positions_bounded_mono(s: Seq<Entity>, b1: int, b2: int)
    requires
        positions_bounded(s, b1),
        b1 <= b2,
    ensures
        positions_bounded(s, b2),
{
    assert forall|k: int| 0 <= k < s.len() implies entity_pos_bounded(#[trigger] s[k], b2) by {
        assert(entity_pos_bounded(s[k], b1));
    }
}

/// A position bound transfers to a column with the same positions.
pub proof fn lemma_positions_bounded_transfer(s1: Seq<Entity>, s2: Seq<Entity>, b: int)
    requires
        positions_bounded(s1, b),
        s1.len() == s2.len(),
        forall|k: int| 0 <= k < s2.len() ==> (#[trigger] s2[k]).position == s1[k].position,
    ensures
        positions_bounded(s2, b),
{
    assert forall|k: int| 0 <= k < s2.len() implies entity_pos_bounded(#[trigger] s2[k], b) by {
        assert(entity_pos_bounded(s1[k], b));
    }
}

/// Movement grows each position by at most one displacement.
pub proof fn lemma_stage_movement_bounded(w: WorldView, dt: int, b: int)
    requires
        entities_wf(w.entities),
        positions_bounded(w.entities, b),
        0 <= dt <= DT_LIMIT,
        0 <= b,
        b + DISP_LIMIT <= i64::MAX,
    ensures
        positions_bounded(stage_movement(w, dt).entities, b + DISP_LIMIT as int),
{
    let s2 = stage_movement(w, dt).entities;
    if w.state == State::Running && dt != 0 {
        assert forall|k: int| 0 <= k < s2.len() implies entity_pos_bounded(
            #[trigger] s2[k],
            b + DISP_LIMIT as int,
        ) by {
            let e = w.entities[k];
            assert(entity_wf(e));
            assert(entity_pos_bounded(e, b));
            assert(s2[k] == movement_entity(e, dt));
            match (e.position, e.velocity) {
                (Some(_), Some(v)) => {
                    lemma_disp_bounded(v.direction.x as int, v.speed as int, dt);
                    lemma_disp_bounded(v.direction.y as int, v.speed as int, dt);
                },
                _ => {},
            }
        }
    } else {
        lemma_positions_bounded_mono(w.entities, b, b + DISP_LIMIT as int);
    }
}

/// Containment never pushes a position beyond the larger of the old bound
/// and one arena unit.
pub proof fn lemma_stage_out_of_bound_bounded(w: WorldView, dt: int, b: int)
    requires
        entities_wf(w.entities),
        positions_bounded(w.entities, b),
        SCALE <= b,
    ensures
        positions_bounded(stage_out_of_bound(w, dt).entities, b),
{
    let s2 = stage_out_of_bound(w, dt).entities;
    if w.state == State::Running && dt != 0 {
        assert forall|k: int| 0 <= k < s2.len() implies entity_pos_bounded(#[trigger] s2[k], b) by {
            let e = w.entities[k];
            assert(entity_wf(e));
            assert(entity_pos_bounded(e, b));
            assert(s2[k] == out_of_bound_entity(e));
        }
    }
}

/// Detection never moves a position.
pub proof fn lemma_stage_detection_bounded(w: WorldView, dt: int, b: int)
    requires
        positions_bounded(w.entities, b),
    ensures
        positions_bounded(stage_collision_detection(w, dt).entities, b),
{
    let s2 = stage_collision_detection(w, dt).entities;
    if w.state == State::Running && dt != 0 {
        assert forall|k: int| 0 <= k < s2.len() implies entity_pos_bounded(#[trigger] s2[k], b) by {
            assert(entity_pos_bounded(w.entities[k], b));
            assert(s2[k] == detect_entity(w.entities, w.entities[k]));
        }
    }
}

/// Resolution grows each position by at most one displacement.
pub proof fn lemma_stage_resolution_bounded(w: WorldView, dt: int, b: int)
    requires
        entities_wf(w.entities),
        positions_bounded(w.entities, b),
        0 <= dt <= DT_LIMIT,
        0 <= b,
        b + DISP_LIMIT <= i64::MAX,
    ensures
        positions_bounded(stage_collision_resolution(w, dt).entities, b + DISP_LIMIT as int),
{
    let s2 = stage_collision_resolution(w, dt).entities;
    if w.state == State::Running && dt != 0 {
        assert forall|k: int| 0 <= k < s2.len() implies entity_pos_bounded(
            #[trigger] s2[k],
            b + DISP_LIMIT as int,
        ) by {
            let e = w.entities[k];
            assert(entity_wf(e));
            assert(entity_pos_bounded(e, b));
            assert(s2[k] == resolve_entity(e, dt));
            match (e.collision, e.position, e.velocity) {
                (Some(Collision), Some(_), Some(v)) => {
                    let s2v = bump_speed(v.speed as int, v.max_speed as int);
                    assert(0 <= s2v <= SPEED_LIMIT as int) by {
                        vstd::arithmetic::div_mod::lemma_div_pos_is_pos(
                            v.speed as int * 11,
                            10int,
                        );
                        vstd::arithmetic::mul::lemma_mul_nonnegative(v.speed as int, 11int);
                    }
                    lemma_disp_bounded(
                        (-(v.direction.y as int)) as i64 as int,
                        s2v,
                        dt,
                    );
                },
                _ => {},
            }
        }
    } else {
        lemma_positions_bounded_mono(w.entities, b, b + DISP_LIMIT as int);
    }
}

/// Step seven of the pipeline.
pub struct ScoreComputer;

impl ScoreComputer {
    pub fn run(w: &mut World, bits_x: u64, bits_y: u64)
        requires
            entities_wf(old(w)@.entities),
            scores_countable(old(w)@.entities),
        ensures
            final(w)@ == stage_score(old(w)@, bits_x, bits_y),
            entities_wf(final(w)@.entities),
    {
        let found = find_first_pair(&w.entities);
        proof {
            lemma_first_pair_props(w.entities@, 0);
        }
        match found {
            None => {
                proof {
                    assert(w@ =~= stage_score(old(w)@, bits_x, bits_y));
                }
            },
            Some((_bi, j)) => {
                w.state = crate::world::GameState(State::Idle);
                let ghost s0 = w.entities@;
                let mut ej = w.entities[j];
                if let Some(sc) = ej.score {
                    proof {
                        assert(scores_countable(s0));
                        assert(s0[j as int].score matches Some(sc0) && sc0.current < u32::MAX);
                    }
                    let mut sc2 = sc;
                    sc2.current = sc.current + 1;
                    ej.score = Some(sc2);
                }
                w.entities.set(j, ej);
                proof {
                    assert forall|k: int| 0 <= k < s0.len() implies #[trigger] w.entities@[k]
                        == award_entity(s0[k], k == j as int) by {}
                }
                let d = dir_from_bits_exec(bits_x, bits_y);
                let n = w.entities.len();
                let mut out: Vec<Entity> = Vec::new();
                let mut i: usize = 0;
                while i < n
                    invariant
                        i <= n,
                        n == w.entities@.len(),
                        out@.len() == i,
                        entities_wf(s0),
                        s0.len() == n,
                        -SCALE <= d.x <= SCALE,
                        -SCALE <= d.y <= SCALE,
                        forall|k: int|
                            0 <= k < n ==> #[trigger] w.entities@[k] == award_entity(
                                s0[k],
                                k == j as int,
                            ),
                        forall|k: int|
                            0 <= k < i ==> #[trigger] out@[k] == reset_pass_entity(
                                w.entities@[k],
                                d,
                            ),
                        forall|k: int| 0 <= k < i ==> entity_wf(#[trigger] out@[k]),
                    decreases n - i,
                {
                    let e = w.entities[i];
                    proof {
                        assert(entity_wf(s0[i as int]));
                        assert(w.entities@[i as int] == award_entity(s0[i as int], i == j));
                        assert(entity_wf(w.entities@[i as int]));
                    }
                    out.push(reset_pass_entity_exec(e, d));
                    i += 1;
                }
                w.entities = out;
                proof {
                    assert(w@.entities =~= stage_score(old(w)@, bits_x, bits_y).entities);
                    assert(w@ =~= stage_score(old(w)@, bits_x, bits_y));
                }
            },
        }
    }
}

} // verus!

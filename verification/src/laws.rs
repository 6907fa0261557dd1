//! Laws of the simulation: properties that relate several functions, stated
//! over the same spec functions the functions' own contracts use.

use crate::components::Entity;
use crate::components::Velocity;
use crate::math::clamp_spec;
use crate::math::collides;
use crate::math::collides_at;
use crate::math::Circle;
use crate::math::Rectangle;
use crate::math::Vector;
use crate::math::SCALE;
use crate::systems::award_entity;
use crate::systems::bump_speed;
use crate::systems::first_scoring_pair;
use crate::systems::out_of_bound_entity;
use crate::systems::reset_pass_entity;
use crate::systems::resolve_entity;
use crate::systems::stage_score;
use crate::world::entity_wf;
use crate::world::tick_spec;
use crate::world::State;
use crate::world::WorldView;
use vstd::arithmetic::div_mod::lemma_div_is_ordered;
use vstd::arithmetic::div_mod::lemma_div_multiples_vanish;
use vstd::arithmetic::div_mod::lemma_div_pos_is_pos;
use vstd::arithmetic::mul::lemma_mul_inequality;
use vstd::arithmetic::mul::lemma_mul_nonnegative;
use vstd::prelude::*;

verus! {

/// Translation invariance of the overlap test: shifting the rectangle and the
/// circle by one and the same vector does not change the outcome.
pub proof fn lemma_collision_translation_invariant(
    blx: int,
    bly: int,
    trx: int,
    tr_y: int,
    cx: int,
    cy: int,
    radius: int,
    tx: int,
    ty: int,
)
    ensures
        collides_at(blx + tx, bly + ty, trx + tx, tr_y + ty, cx + tx, cy + ty, radius)
            == collides_at(blx, bly, trx, tr_y, cx, cy, radius),
{
    assert(clamp_spec(cx + tx, blx + tx, trx + tx) == clamp_spec(cx, blx, trx) + tx);
    assert(clamp_spec(cy + ty, bly + ty, tr_y + ty) == clamp_spec(cy, bly, tr_y) + ty);
}

/// Translation invariance over rectangle and circle values: whenever both
/// figures are translated by the same vector (and the translated coordinates
/// are representable, so the figures exist), the overlap test is unchanged.
pub proof fn lemma_collides_translation(
    r1: Rectangle,
    c1: Circle,
    r2: Rectangle,
    c2: Circle,
    tx: int,
    ty: int,
)
    requires
        r2.bottom_left.x == r1.bottom_left.x + tx,
        r2.bottom_left.y == r1.bottom_left.y + ty,
        r2.top_right.x == r1.top_right.x + tx,
        r2.top_right.y == r1.top_right.y + ty,
        c2.center.x == c1.center.x + tx,
        c2.center.y == c1.center.y + ty,
        c2.radius == c1.radius,
    ensures
        collides(r2, c2) == collides(r1, c1),
{
    lemma_collision_translation_invariant(
        r1.bottom_left.x as int,
        r1.bottom_left.y as int,
        r1.top_right.x as int,
        r1.top_right.y as int,
        c1.center.x as int,
        c1.center.y as int,
        c1.radius as int,
        tx,
        ty,
    );
}

/// Tangency is non-colliding: when the distance from the clamped point to the
/// center equals the radius exactly, the strict comparison reports no
/// collision.
pub proof fn lemma_tangency_not_colliding(r: Rectangle, c: Circle)
    requires
        ({
            let px = clamp_spec(c.center.x as int, r.bottom_left.x as int, r.top_right.x as int);
            let py = clamp_spec(c.center.y as int, r.bottom_left.y as int, r.top_right.y as int);
            (px - c.center.x) * (px - c.center.x) + (py - c.center.y) * (py - c.center.y) == (
            c.radius as int) * (c.radius as int)
        }),
    ensures
        !collides(r, c),
{
}

/// An entity whose horizontal extent already lies inside `[0, SCALE]` passes
/// through boundary containment untouched, so applying containment twice
/// changes neither its position nor its velocity on the second application.
pub open spec fn entity_in_bounds(e: Entity) -> bool {
    match (e.position, e.shape) {
        (Some(p), Some(sh)) => 0 <= p.current.x - sh.half_extent_spec() && p.current.x
            + sh.half_extent_spec() <= SCALE,
        _ => true,
    }
}

/// Boundary containment is idempotent on in-bounds entities.
pub proof fn lemma_containment_idempotent(e: Entity)
    requires
        entity_in_bounds(e),
    ensures
        out_of_bound_entity(e) == e,
        out_of_bound_entity(out_of_bound_entity(e)) == out_of_bound_entity(e),
{
}

/// One resolved collision raises the speed by a tenth (truncated), clamped to
/// the cap, and never lowers it.
pub proof fn lemma_bump_speed_props(speed: int, max: int)
    requires
        0 <= speed <= max,
    ensures
        speed <= bump_speed(speed, max) <= max,
{
    lemma_mul_inequality(10, 11, speed);
    lemma_div_is_ordered(speed * 10, speed * 11, 10);
    lemma_div_multiples_vanish(speed, 10);
    assert(speed * 10 == 10 * speed);
}

/// A saturated speed stays saturated.
pub proof fn lemma_bump_speed_absorbing(max: int)
    requires
        0 <= max,
    ensures
        bump_speed(max, max) == max,
{
    lemma_bump_speed_props(max, max);
}

/// The speed after `n` consecutive resolved collisions without an intervening
/// score reset: `bump_speed` iterated `n` times.
pub open spec fn bump_speed_n(speed: int, max: int, n: nat) -> int
    decreases n,
{
    if n == 0 {
        speed
    } else {
        bump_speed(bump_speed_n(speed, max, (n - 1) as nat), max)
    }
}

/// Speed is monotonically non-decreasing over consecutive resolved
/// collisions and never exceeds the cap, whatever `n` is.
pub proof fn lemma_speed_monotone_saturation(speed: int, max: int, n: nat)
    requires
        0 <= speed <= max,
    ensures
        speed <= bump_speed_n(speed, max, n) <= max,
        bump_speed_n(speed, max, n) <= bump_speed_n(speed, max, n + 1),
    decreases n,
{
    if n == 0 {
        lemma_bump_speed_props(speed, max);
    } else {
        lemma_speed_monotone_saturation(speed, max, (n - 1) as nat);
        lemma_bump_speed_props(bump_speed_n(speed, max, (n - 1) as nat), max);
        lemma_bump_speed_props(bump_speed_n(speed, max, n), max);
    }
}

/// Resolution realizes one `bump_speed` step: the speed of a tagged entity
/// after collision resolution is exactly `bump_speed` of its old speed, under
/// its unchanged cap.
pub proof fn lemma_resolution_speed(e: Entity, dt: int)
    requires
        entity_wf(e),
        e.collision is Some,
        e.position is Some,
        e.velocity is Some,
    ensures
        resolve_entity(e, dt).velocity is Some,
        resolve_entity(e, dt).velocity->Some_0.speed == bump_speed(
            e.velocity->Some_0.speed as int,
            e.velocity->Some_0.max_speed as int,
        ),
        resolve_entity(e, dt).velocity->Some_0.max_speed == e.velocity->Some_0.max_speed,
{
    let v = e.velocity->Some_0;
    lemma_mul_nonnegative(v.speed as int, 11);
    lemma_div_pos_is_pos(v.speed as int * 11, 10);
    lemma_bump_speed_props(v.speed as int, v.max_speed as int);
}

/// An entity as collision detection re-tags it before another resolution.
pub open spec fn retag_entity(e: Entity) -> Entity {
    Entity { collision: Some(crate::components::Collision), ..e }
}

/// The entity after being resolved once per tick over the elapsed times
/// `dts`, re-tagged before each resolution and never reset in between.
pub open spec fn resolve_consecutive(e: Entity, dts: Seq<int>) -> Entity
    decreases dts.len(),
{
    if dts.len() == 0 {
        e
    } else {
        resolve_consecutive(
            resolve_entity(retag_entity(e), dts[0]),
            dts.subrange(1, dts.len() as int),
        )
    }
}

/// Iterating the bump once more on the inside or on the outside is the same.
proof fn lemma_bump_speed_n_shift(speed: int, max: int, n: nat)
    requires
        0 <= speed <= max,
    ensures
        bump_speed_n(bump_speed(speed, max), max, n) == bump_speed_n(speed, max, n + 1),
    decreases n,
{
    lemma_bump_speed_props(speed, max);
    if n == 0 {
        assert(bump_speed_n(bump_speed(speed, max), max, 0) == bump_speed(speed, max));
        assert(bump_speed_n(speed, max, 1) == bump_speed(bump_speed_n(speed, max, 0), max));
    } else {
        lemma_bump_speed_n_shift(speed, max, (n - 1) as nat);
        assert(bump_speed_n(bump_speed(speed, max), max, n) == bump_speed(
            bump_speed_n(bump_speed(speed, max), max, (n - 1) as nat),
            max,
        ));
        assert(bump_speed_n(speed, max, n + 1) == bump_speed(bump_speed_n(speed, max, n), max));
    }
}

/// One resolution keeps an entity well formed.
proof fn lemma_resolve_entity_wf(e: Entity, dt: int)
    requires
        entity_wf(e),
    ensures
        entity_wf(resolve_entity(e, dt)),
        resolve_entity(e, dt).position is Some <==> e.position is Some,
        resolve_entity(e, dt).velocity is Some <==> e.velocity is Some,
        resolve_entity(e, dt).ball == e.ball,
        resolve_entity(e, dt).shape == e.shape,
{
    match (e.collision, e.position, e.velocity) {
        (Some(crate::components::Collision), Some(_), Some(v)) => {
            lemma_mul_nonnegative(v.speed as int, 11);
            lemma_div_pos_is_pos(v.speed as int * 11, 10);
            lemma_bump_speed_props(v.speed as int, v.max_speed as int);
        },
        _ => {},
    }
}

/// Speed monotonic saturation over the pipeline itself: after `n` consecutive
/// resolved collisions without an intervening score reset, the speed is
/// exactly the `n`-fold bump of the initial speed — each hit raises it by a
/// (truncated) tenth, clamped to the unchanged cap, and by
/// [`lemma_speed_monotone_saturation`] it never exceeds that cap.
pub proof fn lemma_consecutive_resolutions_speed(e: Entity, dts: Seq<int>)
    requires
        entity_wf(e),
        e.position is Some,
        e.velocity is Some,
    ensures
        resolve_consecutive(e, dts).velocity is Some,
        resolve_consecutive(e, dts).velocity->Some_0.speed == bump_speed_n(
            e.velocity->Some_0.speed as int,
            e.velocity->Some_0.max_speed as int,
            dts.len(),
        ),
        resolve_consecutive(e, dts).velocity->Some_0.max_speed == e.velocity->Some_0.max_speed,
    decreases dts.len(),
{
    if dts.len() > 0 {
        let v = e.velocity->Some_0;
        let e1 = resolve_entity(retag_entity(e), dts[0]);
        lemma_resolution_speed(retag_entity(e), dts[0]);
        lemma_resolve_entity_wf(retag_entity(e), dts[0]);
        lemma_consecutive_resolutions_speed(e1, dts.subrange(1, dts.len() as int));
        lemma_bump_speed_n_shift(
            v.speed as int,
            v.max_speed as int,
            (dts.len() - 1) as nat,
        );
    }
}

/// Score reset completeness: immediately after a score event the state is
/// `Idle` and every positioned entity sits exactly at its stored default.
pub proof fn lemma_score_reset_completeness(w: WorldView, bits_x: u64, bits_y: u64)
    requires
        first_scoring_pair(w.entities, 0) is Some,
    ensures
        stage_score(w, bits_x, bits_y).state == State::Idle,
        stage_score(w, bits_x, bits_y).entities.len() == w.entities.len(),
        forall|k: int|
            0 <= k < w.entities.len() ==> ((#[trigger] stage_score(
                w,
                bits_x,
                bits_y,
            ).entities[k]).position matches Some(p) ==> p.current == p.default),
{
    let w2 = stage_score(w, bits_x, bits_y);
    assert forall|k: int|
        0 <= k < w.entities.len() implies ((#[trigger] w2.entities[k]).position matches Some(p)
        ==> p.current == p.default) by {
        let pair = first_scoring_pair(w.entities, 0)->Some_0;
        assert(w2.entities[k] == reset_pass_entity(
            award_entity(w.entities[k], k == pair.1),
            crate::systems::dir_from_bits(bits_x, bits_y),
        ));
    }
}

/// Idle gating: a tick taken while `Idle`, without the start edge and with no
/// firing score trigger, leaves the state `Idle` and every entity — every
/// paddle's and the ball's position and velocity included — unchanged.
pub proof fn lemma_idle_gating(
    w: WorldView,
    dt: int,
    press: Option<u32>,
    release: Option<u32>,
    bits_x: u64,
    bits_y: u64,
)
    requires
        w.state == State::Idle,
        release != Some(w.start_key),
        first_scoring_pair(w.entities, 0) is None,
    ensures
        tick_spec(w, dt, press, release, bits_x, bits_y).state == State::Idle,
        tick_spec(w, dt, press, release, bits_x, bits_y).entities == w.entities,
{
}

/// An entity with its ball-direction erased: what a tick determines
/// independently of the random source.
pub open spec fn erase_ball_direction(e: Entity) -> Entity {
    if e.ball is Some {
        match e.velocity {
            Some(v) => Entity {
                velocity: Some(Velocity { direction: Vector { x: 0, y: 0 }, ..v }),
                ..e
            },
            None => e,
        }
    } else {
        e
    }
}

/// Determinism modulo the random source: two ticks from one world with equal
/// elapsed time and no input events agree on the state, the slots, and every
/// component of every entity, except possibly the direction a ball's velocity
/// was restarted with.
pub proof fn lemma_determinism_modulo_rng(
    w: WorldView,
    dt: int,
    b1x: u64,
    b1y: u64,
    b2x: u64,
    b2y: u64,
)
    ensures
        ({
            let w1 = tick_spec(w, dt, None, None, b1x, b1y);
            let w2 = tick_spec(w, dt, None, None, b2x, b2y);
            &&& w1.state == w2.state
            &&& w1.pending_press == w2.pending_press
            &&& w1.pending_release == w2.pending_release
            &&& w1.entities.len() == w2.entities.len()
            &&& forall|k: int|
                0 <= k < w1.entities.len() ==> erase_ball_direction(#[trigger] w1.entities[k])
                    == erase_ball_direction(w2.entities[k])
        }),
{
    let w1 = tick_spec(w, dt, None, None, b1x, b1y);
    let w2 = tick_spec(w, dt, None, None, b2x, b2y);
    let w6 = crate::systems::stage_collision_resolution(
        crate::systems::stage_collision_detection(
            crate::systems::stage_out_of_bound(
                crate::systems::stage_movement(
                    crate::systems::stage_input_apply(
                        crate::systems::stage_input_update(
                            crate::world::ingest_events(w, None, None),
                        ),
                    ),
                    dt,
                ),
                dt,
            ),
            dt,
        ),
        dt,
    );
    assert(w1 == stage_score(w6, b1x, b1y));
    assert(w2 == stage_score(w6, b2x, b2y));
    match first_scoring_pair(w6.entities, 0) {
        None => {
            assert(w1 == w6 && w2 == w6);
        },
        Some(pair) => {
            assert forall|k: int| 0 <= k < w1.entities.len() implies erase_ball_direction(
                #[trigger] w1.entities[k],
            ) == erase_ball_direction(w2.entities[k]) by {
                let d1 = crate::systems::dir_from_bits(b1x, b1y);
                let d2 = crate::systems::dir_from_bits(b2x, b2y);
                let a = award_entity(w6.entities[k], k == pair.1);
                assert(w1.entities[k] == reset_pass_entity(a, d1));
                assert(w2.entities[k] == reset_pass_entity(a, d2));
            }
        },
    }
}

} // verus!

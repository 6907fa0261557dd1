//! The entity store, the run-state machine, and the per-tick context: the
//! current state, the single-slot pending input events, and the arena of
//! entities.

use crate::components::Entity;
use crate::components::Position;
use crate::components::Shape;
use vstd::prelude::*;

verus! {

/// Run state of the simulation.  `Idle` is the initial state; the single
/// start edge moves it to `Running`, and only a score event moves it back.
#[derive(Clone, Copy, PartialEq, Eq, Structural, Debug)]
pub enum State {
    Idle,
    Running,
}

impl Default for State {
    fn default() -> (s: State)
        ensures
            s == State::Idle,
    {
        State::Idle
    }
}

/// The run state as a store resource.
#[derive(Clone, Copy, PartialEq, Eq, Structural, Debug)]
pub struct GameState(pub State);

impl Default for GameState {
    fn default() -> (s: GameState)
        ensures
            s == GameState(State::Idle),
    {
        GameState(State::Idle)
    }
}

/// Ceiling on the elapsed time handed to one tick: one hour.
pub const DT_LIMIT: i64 = 3_600_000_000;

/// Largest displacement one integration step can produce:
/// `SPEED_LIMIT * DT_LIMIT / SCALE / SCALE * SCALE`.
pub const DISP_LIMIT: i64 = 3_600_000_000_000_000;

/// Position magnitude the tick entry point accepts; far beyond the arena, and
/// small enough that a whole tick provably cannot overflow a coordinate.
pub const POS_LIMIT: i64 = 2_000_000_000_000_000_000;

/// The mathematical model of the store: the same record as [`World`], with
/// the entities as a sequence.
#[verifier::ext_equal]
pub struct WorldView {
    pub state: State,
    pub pending_press: Option<u32>,
    pub pending_release: Option<u32>,
    pub start_key: u32,
    pub entities: Seq<Entity>,
}

/// The simulation world: run state, the designated start key, the single-slot
/// pending input events (last writer wins), and the entities.
pub struct World {
    pub state: GameState,
    pub start_key: u32,
    pub pending_press: Option<u32>,
    pub pending_release: Option<u32>,
    pub entities: Vec<Entity>,
}

impl View for World {
    type V = WorldView;

    open spec fn view(&self) -> WorldView {
        WorldView {
            state: self.state.0,
            pending_press: self.pending_press,
            pending_release: self.pending_release,
            start_key: self.start_key,
            entities: self.entities@,
        }
    }
}

/// The invariant each entity keeps across ticks: velocities and shapes are
/// well formed, and a ball's speed cap admits the restart speed.
pub open spec fn entity_wf(e: Entity) -> bool {
    &&& (e.velocity matches Some(v) ==> v.wf())
    &&& (e.shape matches Some(s) ==> s.wf())
    &&& (e.ball is Some ==> (e.velocity matches Some(v) ==> v.max_speed
        >= crate::systems::BALL_DEFAULT_SPEED))
}

pub open spec fn entities_wf(s: Seq<Entity>) -> bool {
    forall|i: int| 0 <= i < s.len() ==> entity_wf(#[trigger] s[i])
}

/// Both coordinates of `v` lie within `[-b, b]`.
pub open spec fn pos_within(v: crate::math::Vector, b: int) -> bool {
    -b <= v.x <= b && -b <= v.y <= b
}

pub open spec fn entity_pos_bounded(e: Entity, b: int) -> bool {
    e.position matches Some(p) ==> pos_within(p.current, b) && pos_within(p.default, b)
}

pub open spec fn positions_bounded(s: Seq<Entity>, b: int) -> bool {
    forall|i: int| 0 <= i < s.len() ==> entity_pos_bounded(#[trigger] s[i], b)
}

/// Every score count can still be incremented.
pub open spec fn scores_countable(s: Seq<Entity>) -> bool {
    forall|i: int|
        0 <= i < s.len() ==> ((#[trigger] s[i]).score matches Some(sc) ==> sc.current < u32::MAX)
}

/// Event ingestion, ahead of the pipeline: a new press or release event
/// overwrites its single slot (last writer wins); the designated start key is
/// intercepted on release, drives only the `Idle -> Running` edge, and never
/// reaches the slots.
pub open spec fn ingest_events(w: WorldView, press: Option<u32>, release: Option<u32>) -> WorldView {
    let pressed = if press is Some {
        press
    } else {
        w.pending_press
    };
    if release == Some(w.start_key) {
        WorldView { state: State::Running, pending_press: pressed, ..w }
    } else {
        let released = if release is Some {
            release
        } else {
            w.pending_release
        };
        WorldView { pending_press: pressed, pending_release: released, ..w }
    }
}

/// The drawable snapshot of the first `n` entities: the `(position, shape)`
/// pair of each entity carrying both.
pub open spec fn drawables_of(s: Seq<Entity>, n: int) -> Seq<
    (crate::components::Position, crate::components::Shape),
>
    decreases n,
{
    if n <= 0 {
        Seq::empty()
    } else {
        let rest = drawables_of(s, n - 1);
        match (s[n - 1].position, s[n - 1].shape) {
            (Some(p), Some(sh)) => rest.push((p, sh)),
            _ => rest,
        }
    }
}

/// The scoreboard snapshot of the first `n` entities: the count and display
/// position of each score component.
pub open spec fn scoreboard_of(s: Seq<Entity>, n: int) -> Seq<(u32, crate::math::Vector)>
    decreases n,
{
    if n <= 0 {
        Seq::empty()
    } else {
        let rest = scoreboard_of(s, n - 1);
        match s[n - 1].score {
            Some(sc) => rest.push((sc.current, sc.position)),
            None => rest,
        }
    }
}

/// One full tick over the model: event ingestion, then the seven steps in
/// their fixed order.
pub open spec fn tick_spec(
    w: WorldView,
    dt: int,
    press: Option<u32>,
    release: Option<u32>,
    bits_x: u64,
    bits_y: u64,
) -> WorldView {
    let w0 = ingest_events(w, press, release);
    let w1 = crate::systems::stage_input_update(w0);
    let w2 = crate::systems::stage_input_apply(w1);
    let w3 = crate::systems::stage_movement(w2, dt);
    let w4 = crate::systems::stage_out_of_bound(w3, dt);
    let w5 = crate::systems::stage_collision_detection(w4, dt);
    let w6 = crate::systems::stage_collision_resolution(w5, dt);
    crate::systems::stage_score(w6, bits_x, bits_y)
}

impl World {
    /// Advances the simulation by one tick with an injected direction sample:
    /// the restart direction drawn after a score event is computed from the
    /// two given words, so two runs with equal inputs are equal.
    pub fn update_with_bits(
        &mut self,
        dt: i64,
        press: Option<u32>,
        release: Option<u32>,
        bits_x: u64,
        bits_y: u64,
    )
        requires
            0 <= dt <= DT_LIMIT,
            entities_wf(old(self)@.entities),
            scores_countable(old(self)@.entities),
            positions_bounded(old(self)@.entities, POS_LIMIT as int),
        ensures
            final(self)@ == tick_spec(old(self)@, dt as int, press, release, bits_x, bits_y),
            entities_wf(final(self)@.entities),
    {
        if let Some(k) = press {
            self.pending_press = Some(k);
        }
        match release {
            Some(k) => {
                if k == self.start_key {
                    self.state = GameState(State::Running);
                } else {
                    self.pending_release = Some(k);
                }
            },
            None => {},
        }
        proof {
            assert(self@ =~= ingest_events(old(self)@, press, release));
        }
        let ghost v0 = self@;
        crate::systems::InputUpdate::run(self);
        let ghost v1 = self@;
        crate::systems::InputApply::run(self);
        let ghost v2 = self@;
        proof {
            crate::systems::lemma_positions_bounded_transfer(
                v0.entities,
                v1.entities,
                POS_LIMIT as int,
            );
            crate::systems::lemma_positions_bounded_transfer(
                v1.entities,
                v2.entities,
                POS_LIMIT as int,
            );
            crate::systems::lemma_positions_bounded_mono(
                v2.entities,
                POS_LIMIT as int,
                crate::systems::pos_step_bound(),
            );
        }
        crate::systems::Movement::run(self, dt);
        let ghost v3 = self@;
        proof {
            crate::systems::lemma_stage_movement_bounded(v2, dt as int, POS_LIMIT as int);
            crate::systems::lemma_positions_bounded_mono(
                v3.entities,
                POS_LIMIT as int + DISP_LIMIT as int,
                crate::systems::pos_step_bound(),
            );
        }
        crate::systems::OutOfBound::run(self, dt);
        let ghost v4 = self@;
        proof {
            crate::systems::lemma_stage_out_of_bound_bounded(
                v3,
                dt as int,
                POS_LIMIT as int + DISP_LIMIT as int,
            );
            crate::systems::lemma_positions_bounded_mono(
                v4.entities,
                POS_LIMIT as int + DISP_LIMIT as int,
                crate::systems::pos_step_bound(),
            );
        }
        crate::systems::CollisionDetection::run(self, dt);
        let ghost v5 = self@;
        proof {
            crate::systems::lemma_stage_detection_bounded(
                v4,
                dt as int,
                POS_LIMIT as int + DISP_LIMIT as int,
            );
            crate::systems::lemma_positions_bounded_mono(
                v5.entities,
                POS_LIMIT as int + DISP_LIMIT as int,
                crate::systems::pos_step_bound(),
            );
        }
        crate::systems::CollisionResolution::run(self, dt);
        crate::systems::ScoreComputer::run(self, bits_x, bits_y);
    }

    /// Advances the simulation by one tick: the core entry point.  Takes the
    /// elapsed time and the tick's pending events; draws the restart
    /// direction sample from the ambient random source.
    pub fn update(&mut self, dt: i64, press: Option<u32>, release: Option<u32>)
        requires
            0 <= dt <= DT_LIMIT,
            entities_wf(old(self)@.entities),
            scores_countable(old(self)@.entities),
            positions_bounded(old(self)@.entities, POS_LIMIT as int),
        ensures
            exists|bits_x: u64, bits_y: u64|
                final(self)@ == tick_spec(old(self)@, dt as int, press, release, bits_x, bits_y),
            entities_wf(final(self)@.entities),
    {
        let bits_x = crate::random::random_bits();
        let bits_y = crate::random::random_bits();
        self.update_with_bits(dt, press, release, bits_x, bits_y);
        proof {
            assert(self@ == tick_spec(old(self)@, dt as int, press, release, bits_x, bits_y));
        }
    }

    /// Current run state, for the render consumer's "press start" affordance.
    pub fn current_state(&self) -> (s: State)
        ensures
            s == self@.state,
    {
        self.state.0
    }

    /// Read interface for the render consumer, valid after [`World::update`]
    /// returns: the `(position, shape)` pair of every drawable entity, in
    /// entity order.  Read-only: the snapshot is copied out.
    pub fn drawables(&self) -> (r: Vec<(Position, Shape)>)
        ensures
            r@ == drawables_of(self@.entities, self@.entities.len() as int),
    {
        let n = self.entities.len();
        let mut out: Vec<(Position, Shape)> = Vec::new();
        let mut i: usize = 0;
        while i < n
            invariant
                i <= n,
                n == self.entities@.len(),
                out@ == drawables_of(self.entities@, i as int),
            decreases n - i,
        {
            let e = &self.entities[i];
            if let (Some(p), Some(sh)) = (e.position, e.shape) {
                out.push((p, sh));
            }
            i += 1;
        }
        out
    }

    /// Read interface for the render consumer: the count and display position
    /// of every score component, in entity order.
    pub fn scoreboard(&self) -> (r: Vec<(u32, crate::math::Vector)>)
        ensures
            r@ == scoreboard_of(self@.entities, self@.entities.len() as int),
    {
        let n = self.entities.len();
        let mut out: Vec<(u32, crate::math::Vector)> = Vec::new();
        let mut i: usize = 0;
        while i < n
            invariant
                i <= n,
                n == self.entities@.len(),
                out@ == scoreboard_of(self.entities@, i as int),
            decreases n - i,
        {
            let e = &self.entities[i];
            if let Some(sc) = e.score {
                out.push((sc.current, sc.position));
            }
            i += 1;
        }
        out
    }

    /// An empty world in the initial state.
    pub fn new(start_key: u32) -> (w: World)
        ensures
            w@.state == State::Idle,
            w@.pending_press is None,
            w@.pending_release is None,
            w@.start_key == start_key,
            w@.entities.len() == 0,
    {
        World {
            state: GameState(State::Idle),
            start_key,
            pending_press: None,
            pending_release: None,
            entities: Vec::new(),
        }
    }
}

} // verus!

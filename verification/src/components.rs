//! Components of the entity store.
//!
//! Every entity is a record of optional components; a component present on an
//! entity is a plain data value.  `Ball` and `Paddle` are zero-size role tags:
//! the boundary policy and the collision and scoring rules are keyed by role,
//! never by shape.  `Collision` is a transient tag that marks "in contact
//! this tick".

use crate::math::FIX_LIMIT;
use crate::math::SCALE;
use crate::math::Vector;
use vstd::prelude::*;

verus! {

/// Hard ceiling on speeds, chosen so that every product a tick computes fits
/// the fixed-point multiply.
pub const SPEED_LIMIT: i64 = FIX_LIMIT;

/// Where an entity is now, and where a score event puts it back.  The reset
/// target is set once at creation and never changed afterward.
#[derive(Clone, Copy, PartialEq, Eq, Structural, Debug)]
pub struct Position {
    pub current: Vector,
    pub default: Vector,
}

impl Position {
    pub fn new(x: i64, y: i64) -> (p: Position)
        ensures
            p == (Position { current: Vector { x, y }, default: Vector { x, y } }),
    {
        let v = Vector::new(x, y);
        Position { current: v, default: v }
    }
}

/// A direction (zero, or of roughly unit length, each component within one
/// unit) and a non-negative speed capped by `max_speed`.
#[derive(Clone, Copy, PartialEq, Eq, Structural, Debug)]
pub struct Velocity {
    pub direction: Vector,
    pub speed: i64,
    pub max_speed: i64,
}

impl Velocity {
    /// The invariant every velocity in the store keeps: the speed lies in
    /// `[0, max_speed]`, the cap is representable, and no direction component
    /// exceeds one unit in magnitude.
    pub open spec fn wf(self) -> bool {
        &&& 0 <= self.speed <= self.max_speed <= SPEED_LIMIT
        &&& -SCALE <= self.direction.x <= SCALE
        &&& -SCALE <= self.direction.y <= SCALE
    }

    /// A new velocity starts at its cap.
    pub fn new(direction: Vector, max_speed: i64) -> (v: Velocity)
        requires
            0 <= max_speed <= SPEED_LIMIT,
            -SCALE <= direction.x <= SCALE,
            -SCALE <= direction.y <= SCALE,
        ensures
            v == (Velocity { direction, speed: max_speed, max_speed }),
            v.wf(),
    {
        Velocity { direction, speed: max_speed, max_speed }
    }
}

/// Role tag: this entity is the ball (bounces off the side walls).
#[derive(Clone, Copy, PartialEq, Eq, Structural, Debug)]
pub struct Ball;

/// Role tag: this entity is a paddle (stops hard at the side walls).
#[derive(Clone, Copy, PartialEq, Eq, Structural, Debug)]
pub struct Paddle;

/// The footprint of an entity, immutable after creation.
#[derive(Clone, Copy, PartialEq, Eq, Structural, Debug)]
pub enum Shape {
    Circle { radius: i64 },
    Rectangle { width: i64, height: i64 },
}

impl Shape {
    /// Extents are positive and no larger than the arena.
    pub open spec fn wf(self) -> bool {
        match self {
            Shape::Circle { radius } => 0 < radius <= SCALE,
            Shape::Rectangle { width, height } => 0 < width <= SCALE && 0 < height <= SCALE,
        }
    }

    /// Horizontal half-extent: the radius of a circle, half the width of a
    /// rectangle (odd widths round down).
    pub open spec fn half_extent_spec(self) -> int {
        match self {
            Shape::Circle { radius } => radius as int,
            Shape::Rectangle { width, .. } => (width as int) / 2,
        }
    }

    pub fn half_extent(&self) -> (e: i64)
        requires
            self.wf(),
        ensures
            e == self.half_extent_spec(),
            0 <= e <= SCALE,
    {
        match self {
            Shape::Circle { radius } => *radius,
            Shape::Rectangle { width, .. } => ((*width as u64) / 2) as i64,
        }
    }
}

/// Transient tag: the entity is in contact this tick.  Inserted by collision
/// detection, removed by a deferred command at the end of resolution.
#[derive(Clone, Copy, PartialEq, Eq, Structural, Debug)]
pub struct Collision;

/// Key bindings of a paddle and the pressed state of each bound key.  Keys
/// are opaque logical identifiers; only equality on them matters here.
#[derive(Clone, Copy, PartialEq, Eq, Structural, Debug)]
pub struct Input {
    pub key_right: u32,
    pub key_left: u32,
    pub right: bool,
    pub left: bool,
}

impl Input {
    pub fn new(key_left: u32, key_right: u32) -> (i: Input)
        ensures
            i == (Input { key_right, key_left, right: false, left: false }),
    {
        Input { key_right, key_left, right: false, left: false }
    }
}

/// A score trigger: a closed predicate over the ball's position, comparing
/// its y coordinate against a goal line.
#[derive(Clone, Copy, PartialEq, Eq, Structural, Debug)]
pub enum Trigger {
    YBelow { threshold: i64 },
    YAbove { threshold: i64 },
}

impl Trigger {
    pub open spec fn fires_spec(self, p: Vector) -> bool {
        match self {
            Trigger::YBelow { threshold } => p.y < threshold,
            Trigger::YAbove { threshold } => p.y > threshold,
        }
    }

    pub fn fires(&self, p: Vector) -> (b: bool)
        ensures
            b == self.fires_spec(p),
    {
        match self {
            Trigger::YBelow { threshold } => p.y < *threshold,
            Trigger::YAbove { threshold } => p.y > *threshold,
        }
    }
}

/// A paddle's score: a monotonically increasing count, the trigger that
/// awards it, and where the external render consumer displays it.
#[derive(Clone, Copy, PartialEq, Eq, Structural, Debug)]
pub struct Score {
    pub current: u32,
    pub trigger: Trigger,
    pub position: Vector,
}

impl Score {
    pub fn new(trigger: Trigger, position: Vector) -> (s: Score)
        ensures
            s == (Score { current: 0, trigger, position }),
    {
        Score { current: 0, trigger, position }
    }
}

/// One entity: a record of optional components.
#[derive(Clone, Copy, PartialEq, Eq, Debug)]
pub struct Entity {
    pub position: Option<Position>,
    pub velocity: Option<Velocity>,
    pub shape: Option<Shape>,
    pub input: Option<Input>,
    pub score: Option<Score>,
    pub ball: Option<Ball>,
    pub paddle: Option<Paddle>,
    pub collision: Option<Collision>,
}

impl Entity {
    /// An entity with no components attached.
    pub fn empty() -> (e: Entity)
        ensures
            e == (Entity {
                position: None,
                velocity: None,
                shape: None,
                input: None,
                score: None,
                ball: None,
                paddle: None,
                collision: None,
            }),
    {
        Entity {
            position: None,
            velocity: None,
            shape: None,
            input: None,
            score: None,
            ball: None,
            paddle: None,
            collision: None,
        }
    }
}

} // verus!

//! Geometry kernel: fixed-point vectors, rectangles, circles and the
//! closest-point rectangle/circle overlap test.
//!
//! Every coordinate, length and speed in the simulation is an `i64` counting
//! millionths of an arena unit ([`SCALE`]).  All arithmetic is specified over
//! mathematical integers; products are computed through 128-bit intermediates
//! so that the executable code provably never overflows.

use vstd::arithmetic::div_mod::lemma_div_is_ordered;
use vstd::arithmetic::div_mod::lemma_div_multiples_vanish;
use vstd::arithmetic::mul::lemma_mul_inequality;
use vstd::prelude::*;

verus! {

/// One arena unit: the fixed-point representation of `1.0`.
pub const SCALE: i64 = 1_000_000;

/// Largest magnitude accepted by the fixed-point multiply, large enough for
/// every speed and elapsed time the simulation admits.
pub const FIX_LIMIT: i64 = 1_000_000_000_000;

/// Magnitude of a value, as a mathematical integer.
pub open spec fn abs_i(v: int) -> int {
    if v < 0 {
        -v
    } else {
        v
    }
}

/// Fixed-point product `a * k / SCALE`, truncated toward zero, for `k >= 0`.
pub open spec fn scaled_mul(a: int, k: int) -> int {
    if a < 0 {
        -(((-a) * k) / (SCALE as int))
    } else {
        (a * k) / (SCALE as int)
    }
}

/// Clamp `v` onto `[lo, hi]`.
pub open spec fn clamp_spec(v: int, lo: int, hi: int) -> int {
    if v < lo {
        lo
    } else if v > hi {
        hi
    } else {
        v
    }
}

/// The magnitude of a fixed-point product grows with the magnitude of its
/// first argument: `|a| <= m` gives `|a * k / SCALE| <= m * k / SCALE`.
pub proof fn lemma_scaled_mul_abs(a: int, k: int, m: int)
    requires
        0 <= k,
        abs_i(a) <= m,
    ensures
        abs_i(scaled_mul(a, k)) <= (m * k) / (SCALE as int),
{
    lemma_mul_inequality(abs_i(a), m, k);
    lemma_div_is_ordered(abs_i(a) * k, m * k, SCALE as int);
    vstd::arithmetic::mul::lemma_mul_nonnegative(abs_i(a), k);
    vstd::arithmetic::div_mod::lemma_div_pos_is_pos(abs_i(a) * k, SCALE as int);
}

/// Scaling by a factor of at most one unit does not increase the magnitude:
/// `|a| <= SCALE` gives `|a * k / SCALE| <= k`.
pub proof fn lemma_scaled_mul_unit(a: int, k: int)
    requires
        0 <= k,
        abs_i(a) <= SCALE as int,
    ensures
        abs_i(scaled_mul(a, k)) <= k,
{
    lemma_scaled_mul_abs(a, k, SCALE as int);
    lemma_div_multiples_vanish(k, SCALE as int);
}

/// A 2D vector (point, direction or displacement) in fixed-point arena
/// coordinates.
#[derive(Clone, Copy, PartialEq, Eq, Structural, Debug)]
pub struct Vector {
    pub x: i64,
    pub y: i64,
}

/// The zero vector stands for "no direction".
impl Default for Vector {
    fn default() -> (v: Vector)
        ensures
            v == (Vector { x: 0, y: 0 }),
    {
        Vector { x: 0, y: 0 }
    }
}

impl Vector {
    pub fn new(x: i64, y: i64) -> (v: Vector)
        ensures
            v == (Vector { x, y }),
    {
        Vector { x, y }
    }

    /// Componentwise sum.
    pub fn add(self, other: Vector) -> (r: Vector)
        requires
            i64::MIN <= self.x + other.x <= i64::MAX,
            i64::MIN <= self.y + other.y <= i64::MAX,
        ensures
            r.x == self.x + other.x,
            r.y == self.y + other.y,
    {
        Vector { x: self.x + other.x, y: self.y + other.y }
    }

    /// Fixed-point scaling by a non-negative factor `k` (so `k == SCALE`
    /// leaves the vector unchanged); each component is truncated toward zero.
    pub fn mul(self, k: i64) -> (r: Vector)
        requires
            0 <= k <= FIX_LIMIT,
            -FIX_LIMIT <= self.x <= FIX_LIMIT,
            -FIX_LIMIT <= self.y <= FIX_LIMIT,
        ensures
            r.x == scaled_mul(self.x as int, k as int),
            r.y == scaled_mul(self.y as int, k as int),
    {
        Vector { x: scaled_mul_i64(self.x, k), y: scaled_mul_i64(self.y, k) }
    }
}

/// Fixed-point product of one component, truncated toward zero.
fn scaled_mul_i64(a: i64, k: i64) -> (r: i64)
    requires
        0 <= k <= FIX_LIMIT,
        -FIX_LIMIT <= a <= FIX_LIMIT,
    ensures
        r == scaled_mul(a as int, k as int),
{
    let mag: u128 = if a < 0 {
        (-(a as i128)) as u128
    } else {
        a as u128
    };
    assert(mag == abs_i(a as int));
    assert(mag * (k as u128) <= (FIX_LIMIT as int) * (FIX_LIMIT as int)) by {
        lemma_mul_inequality(mag as int, FIX_LIMIT as int, k as int);
        lemma_mul_inequality(k as int, FIX_LIMIT as int, FIX_LIMIT as int);
    }
    let prod: u128 = mag * (k as u128);
    assert(prod / (SCALE as u128) <= (FIX_LIMIT as int * FIX_LIMIT as int) / (SCALE as int)) by {
        lemma_div_is_ordered(prod as int, FIX_LIMIT as int * FIX_LIMIT as int, SCALE as int);
    }
    assert((1_000_000_000_000int * 1_000_000_000_000int) / 1_000_000int
        == 1_000_000_000_000_000_000int) by (nonlinear_arith);
    let q: u128 = prod / (SCALE as u128);
    let qi: i64 = q as i64;
    assert(qi == (abs_i(a as int) * (k as int)) / (SCALE as int));
    if a < 0 {
        -qi
    } else {
        qi
    }
}

/// `r` is the integer square root of `n`: the largest integer whose square
/// does not exceed `n`.
pub open spec fn is_sqrt_floor(n: int, r: int) -> bool {
    0 <= r && r * r <= n && n < (r + 1) * (r + 1)
}

/// The integer square root of a non-negative `n`.
pub closed spec fn sqrt_floor(n: int) -> int {
    choose|r: int| #[trigger] is_sqrt_floor(n, r)
}

/// Every non-negative integer has an integer square root.
pub proof fn lemma_sqrt_floor_exists(n: nat)
    ensures
        exists|r: int| #[trigger] is_sqrt_floor(n as int, r),
    decreases n,
{
    if n == 0 {
        assert(is_sqrt_floor(0, 0)) by (nonlinear_arith);
    } else {
        lemma_sqrt_floor_exists((n - 1) as nat);
        let r = choose|r: int| #[trigger] is_sqrt_floor(n - 1, r);
        if n < (r + 1) * (r + 1) {
            assert(is_sqrt_floor(n as int, r));
        } else {
            assert(is_sqrt_floor(n as int, r + 1)) by (nonlinear_arith)
                requires
                    0 <= r,
                    (r + 1) * (r + 1) <= n <= (r + 1) * (r + 1),
            ;
        }
    }
}

/// The integer square root is unique.
pub proof fn lemma_sqrt_floor_unique(n: int, r1: int, r2: int)
    requires
        is_sqrt_floor(n, r1),
        is_sqrt_floor(n, r2),
    ensures
        r1 == r2,
{
    assert(r1 == r2) by (nonlinear_arith)
        requires
            0 <= r1 && r1 * r1 <= n && n < (r1 + 1) * (r1 + 1),
            0 <= r2 && r2 * r2 <= n && n < (r2 + 1) * (r2 + 1),
    ;
}

/// Integer square root by bisection.
fn isqrt_u128(n: u128) -> (r: u64)
    ensures
        is_sqrt_floor(n as int, r as int),
{
    let mut lo: u128 = 0;
    let mut hi: u128 = 0x1_0000_0000_0000_0000;
    assert(n < hi * hi) by (nonlinear_arith)
        requires
            n <= u128::MAX && hi == 0x1_0000_0000_0000_0000,
    ;
    while lo + 1 < hi
        invariant
            lo < hi <= 0x1_0000_0000_0000_0000,
            lo * lo <= n,
            n < hi * hi,
        decreases hi - lo,
    {
        let mid: u128 = lo + (hi - lo) / 2;
        assert(lo < mid < hi) by (nonlinear_arith)
            requires
                mid == lo + (hi - lo) / 2 && lo + 1 < hi,
        ;
        assert(mid * mid <= u128::MAX) by (nonlinear_arith)
            requires
                mid < 0x1_0000_0000_0000_0000,
        ;
        if mid * mid <= n {
            lo = mid;
        } else {
            hi = mid;
        }
    }
    lo as u64
}

/// Squared length of a vector.
pub open spec fn len_sq(v: Vector) -> int {
    v.x * v.x + v.y * v.y
}

/// One normalized component: `c` rescaled so that a vector of length `len`
/// gets length `SCALE`, truncated toward zero; `0` when `len` is `0`.
pub open spec fn unit_coord(c: int, len: int) -> int {
    if len == 0 {
        0
    } else if c < 0 {
        -(((-c) * (SCALE as int)) / len)
    } else {
        (c * (SCALE as int)) / len
    }
}

/// The x component of the normalized vector `(x, y)`.
pub open spec fn norm_x(x: int, y: int) -> int {
    unit_coord(x, sqrt_floor(x * x + y * y))
}

/// The y component of the normalized vector `(x, y)`.
pub open spec fn norm_y(x: int, y: int) -> int {
    unit_coord(y, sqrt_floor(x * x + y * y))
}

/// One normalized component, executable.
fn unit_coord_i64(c: i64, len: u64) -> (r: i64)
    requires
        0 < len,
        abs_i(c as int) <= len as int,
    ensures
        r == unit_coord(c as int, len as int),
        -SCALE <= r <= SCALE,
{
    let mag: u128 = if c < 0 {
        (-(c as i128)) as u128
    } else {
        c as u128
    };
    assert(mag == abs_i(c as int));
    assert(mag * (SCALE as u128) <= (len as int) * (SCALE as int)) by {
        lemma_mul_inequality(mag as int, len as int, SCALE as int);
    }
    assert((len as int) * (SCALE as int) <= u128::MAX) by (nonlinear_arith)
        requires
            len <= u64::MAX,
    ;
    let prod: u128 = mag * (SCALE as u128);
    assert(prod / (len as u128) <= SCALE) by {
        lemma_div_is_ordered(prod as int, len as int * SCALE as int, len as int);
        lemma_div_multiples_vanish(SCALE as int, len as int);
    }
    let q: u128 = prod / (len as u128);
    let qi: i64 = q as i64;
    if c < 0 {
        -qi
    } else {
        qi
    }
}

impl Vector {
    /// Length of the vector, rounded down to the nearest representable value.
    pub fn length(self) -> (l: u64)
        ensures
            l == sqrt_floor(len_sq(self)),
            is_sqrt_floor(len_sq(self), l as int),
    {
        let xx: u128 = sq_of_diff(self.x, 0);
        let yy: u128 = sq_of_diff(self.y, 0);
        assert(xx + yy <= u128::MAX) by (nonlinear_arith)
            requires
                xx == self.x * self.x && yy == self.y * self.y && i64::MIN <= self.x <= i64::MAX
                    && i64::MIN <= self.y <= i64::MAX,
        ;
        let l: u64 = isqrt_u128(xx + yy);
        proof {
            lemma_sqrt_floor_exists(len_sq(self) as nat);
            lemma_sqrt_floor_unique(len_sq(self), l as int, sqrt_floor(len_sq(self)));
        }
        l
    }

    /// Rescales the vector to (approximately) unit length, that is length
    /// `SCALE` in fixed point; each component is truncated toward zero and
    /// never exceeds `SCALE` in magnitude.  The zero vector has no direction
    /// and is returned unchanged, by fixed policy.
    pub fn normalize(self) -> (r: Vector)
        ensures
            r.x == norm_x(self.x as int, self.y as int),
            r.y == norm_y(self.x as int, self.y as int),
            -SCALE <= r.x <= SCALE,
            -SCALE <= r.y <= SCALE,
    {
        let len: u64 = self.length();
        if len == 0 {
            proof {
                assert(self.x == 0 && self.y == 0) by (nonlinear_arith)
                    requires
                        is_sqrt_floor(self.x * self.x + self.y * self.y, 0),
                ;
            }
            self
        } else {
            proof {
                assert(abs_i(self.x as int) <= len as int && abs_i(self.y as int)
                    <= len as int) by (nonlinear_arith)
                    requires
                        is_sqrt_floor(self.x * self.x + self.y * self.y, len as int),
                ;
            }
            Vector { x: unit_coord_i64(self.x, len), y: unit_coord_i64(self.y, len) }
        }
    }
}

/// Raised by [`Rectangle::new`] when the corners are not ordered
/// componentwise: a configuration fault that must surface before the
/// simulation starts.
#[derive(Clone, Copy, PartialEq, Eq, Structural, Debug)]
pub struct InvalidGeometry;

/// An axis-aligned rectangle given by its bottom-left and top-right corners.
#[derive(Clone, Copy, PartialEq, Eq, Structural, Debug)]
pub struct Rectangle {
    pub bottom_left: Vector,
    pub top_right: Vector,
}

impl Rectangle {
    /// True when the corners are ordered componentwise.
    pub open spec fn wf(self) -> bool {
        self.bottom_left.x <= self.top_right.x && self.bottom_left.y <= self.top_right.y
    }

    /// Builds a rectangle, rejecting corners where either coordinate of the
    /// bottom-left corner exceeds the corresponding coordinate of the
    /// top-right one.
    pub fn new(bottom_left: Vector, top_right: Vector) -> (r: Result<Rectangle, InvalidGeometry>)
        ensures
            r is Ok <==> bottom_left.x <= top_right.x && bottom_left.y <= top_right.y,
            r is Ok ==> r->Ok_0 == (Rectangle { bottom_left, top_right }) && r->Ok_0.wf(),
            r is Err ==> r->Err_0 == InvalidGeometry,
    {
        if bottom_left.x > top_right.x || bottom_left.y > top_right.y {
            Err(InvalidGeometry)
        } else {
            Ok(Rectangle { bottom_left, top_right })
        }
    }

    pub fn width(self) -> (w: i64)
        requires
            self.top_right.x - self.bottom_left.x <= i64::MAX,
            self.wf(),
        ensures
            w == self.top_right.x - self.bottom_left.x,
    {
        self.top_right.x - self.bottom_left.x
    }

    pub fn height(self) -> (h: i64)
        requires
            self.top_right.y - self.bottom_left.y <= i64::MAX,
            self.wf(),
        ensures
            h == self.top_right.y - self.bottom_left.y,
    {
        self.top_right.y - self.bottom_left.y
    }

    /// Center of the rectangle; odd extents round toward the bottom left.
    pub fn center(self) -> (c: Vector)
        requires
            self.top_right.x - self.bottom_left.x <= i64::MAX,
            self.top_right.y - self.bottom_left.y <= i64::MAX,
            self.wf(),
        ensures
            c.x == self.bottom_left.x + (self.top_right.x - self.bottom_left.x) / 2,
            c.y == self.bottom_left.y + (self.top_right.y - self.bottom_left.y) / 2,
    {
        let w: i64 = self.top_right.x - self.bottom_left.x;
        let h: i64 = self.top_right.y - self.bottom_left.y;
        let hw: i64 = ((w as u64) / 2) as i64;
        let hh: i64 = ((h as u64) / 2) as i64;
        Vector { x: self.bottom_left.x + hw, y: self.bottom_left.y + hh }
    }
}

/// A circle given by its center and radius.
#[derive(Clone, Copy, PartialEq, Eq, Structural, Debug)]
pub struct Circle {
    pub center: Vector,
    pub radius: i64,
}

/// The overlap test on raw integer coordinates: clamp the circle's center
/// onto the rectangle's extent per axis and compare the squared distance from
/// the clamped point to the center against the squared radius, strictly, so
/// tangency does not count.
pub open spec fn collides_at(
    blx: int,
    bly: int,
    trx: int,
    tr_y: int,
    cx: int,
    cy: int,
    radius: int,
) -> bool {
    let px = clamp_spec(cx, blx, trx);
    let py = clamp_spec(cy, bly, tr_y);
    (px - cx) * (px - cx) + (py - cy) * (py - cy) < radius * radius
}

/// [`collides_at`] applied to a rectangle and circle value.
pub open spec fn collides(rectangle: Rectangle, circle: Circle) -> bool {
    collides_at(
        rectangle.bottom_left.x as int,
        rectangle.bottom_left.y as int,
        rectangle.top_right.x as int,
        rectangle.top_right.y as int,
        circle.center.x as int,
        circle.center.y as int,
        circle.radius as int,
    )
}

/// Clamp a coordinate onto `[lo, hi]`.
fn clamp_i64(v: i64, lo: i64, hi: i64) -> (r: i64)
    ensures
        r == clamp_spec(v as int, lo as int, hi as int),
{
    if v < lo {
        lo
    } else if v > hi {
        hi
    } else {
        v
    }
}

/// Square of the difference `a - b`, exact over the whole `i64` range.
fn sq_of_diff(a: i64, b: i64) -> (r: u128)
    ensures
        r == (a - b) * (a - b),
{
    let d: i128 = a as i128 - b as i128;
    let m: u128 = if d < 0 {
        (-d) as u128
    } else {
        d as u128
    };
    assert(m == abs_i(a - b));
    assert(m * m == (a - b) * (a - b) && m * m <= 0xffff_ffff_ffff_ffffu128
        * 0xffff_ffff_ffff_ffffu128) by (nonlinear_arith)
        requires
            m == abs_i(a - b),
            abs_i(a - b) < 0x1_0000_0000_0000_0000,
    ;
    m * m
}

/// Reports whether the rectangle and the circle overlap: the circle's center
/// is clamped onto the rectangle per axis and the clamped point must lie
/// strictly inside the circle.  Tangency is not a collision.
pub fn check_collision(rectangle: Rectangle, circle: Circle) -> (hit: bool)
    ensures
        hit == collides(rectangle, circle),
{
    let px = clamp_i64(circle.center.x, rectangle.bottom_left.x, rectangle.top_right.x);
    let py = clamp_i64(circle.center.y, rectangle.bottom_left.y, rectangle.top_right.y);
    let dx2: u128 = sq_of_diff(px, circle.center.x);
    let dy2: u128 = sq_of_diff(py, circle.center.y);
    let r2: u128 = sq_of_diff(circle.radius, 0);
    if dx2 >= r2 {
        false
    } else {
        dy2 < r2 - dx2
    }
}

} // verus!

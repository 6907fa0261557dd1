//! Tests of the geometry kernel.  All magnitudes are fixed point: `SCALE` is
//! one arena unit.

use pong::math::check_collision;
use pong::math::Circle;
use pong::math::InvalidGeometry;
use pong::math::Rectangle;
use pong::math::Vector;
use pong::math::SCALE;

fn rect(blx: i64, bly: i64, trx: i64, try_: i64) -> Rectangle {
    Rectangle::new(Vector::new(blx, bly), Vector::new(trx, try_)).unwrap()
}

#[test]
fn it_should_collide_when_rectangle_is_inside_circle() {
    let circle = Circle {
        center: Vector { x: 0, y: 0 },
        radius: 10 * SCALE,
    };
    let rectangle = rect(-5 * SCALE, -5 * SCALE, 5 * SCALE, 5 * SCALE);
    assert!(check_collision(rectangle, circle));
}

#[test]
fn it_should_collide_when_circle_is_inside_rectangle() {
    let circle = Circle {
        center: Vector { x: 0, y: 0 },
        radius: 3 * SCALE,
    };
    let rectangle = rect(-5 * SCALE, -5 * SCALE, 5 * SCALE, 5 * SCALE);
    assert!(check_collision(rectangle, circle));
}

#[test]
fn it_should_collide_when_overlapping() {
    let circle = Circle {
        center: Vector { x: 0, y: 0 },
        radius: 3 * SCALE,
    };
    let rectangle = rect(2_950_000, -5 * SCALE, 5 * SCALE, 5 * SCALE);
    assert!(check_collision(rectangle, circle));
}

#[test]
fn it_should_not_collide_when_separate() {
    let circle = Circle {
        center: Vector { x: 0, y: 0 },
        radius: 3 * SCALE,
    };
    let rectangle = rect(4 * SCALE, -5 * SCALE, 5 * SCALE, 5 * SCALE);
    assert!(!check_collision(rectangle, circle));
}

#[test]
fn tangency_is_not_a_collision() {
    // The clamped point is (SCALE, SCALE/2), exactly one radius away from the
    // center: the strict comparison must say no.
    let circle = Circle {
        center: Vector { x: 2 * SCALE, y: SCALE / 2 },
        radius: SCALE,
    };
    let rectangle = rect(0, 0, SCALE, SCALE);
    assert!(!check_collision(rectangle, circle));
}

#[test]
fn translated_pair_collides_alike() {
    let circle = Circle {
        center: Vector { x: 0, y: 0 },
        radius: 3 * SCALE,
    };
    let rectangle = rect(2_950_000, -5 * SCALE, 5 * SCALE, 5 * SCALE);
    let tx = 7 * SCALE;
    let ty = -2 * SCALE;
    let moved_circle = Circle {
        center: Vector { x: tx, y: ty },
        radius: 3 * SCALE,
    };
    let moved_rectangle = rect(2_950_000 + tx, -5 * SCALE + ty, 5 * SCALE + tx, 5 * SCALE + ty);
    assert_eq!(
        check_collision(moved_rectangle, moved_circle),
        check_collision(rectangle, circle)
    );
}

#[test]
fn rectangle_new_rejects_unordered_corners() {
    let r = Rectangle::new(Vector::new(SCALE, 0), Vector::new(0, SCALE));
    assert_eq!(r.unwrap_err(), InvalidGeometry);
    let r = Rectangle::new(Vector::new(0, SCALE), Vector::new(SCALE, 0));
    assert_eq!(r.unwrap_err(), InvalidGeometry);
}

#[test]
fn rectangle_measures() {
    let r = rect(0, 0, 250_000, 50_000);
    assert_eq!(r.width(), 250_000);
    assert_eq!(r.height(), 50_000);
    let c = r.center();
    assert_eq!(c, Vector { x: 125_000, y: 25_000 });
}

#[test]
fn vector_length_and_normalize_are_exact() {
    let v = Vector::new(3 * SCALE, 4 * SCALE);
    assert_eq!(v.length(), 5 * SCALE as u64);
    assert_eq!(v.normalize(), Vector { x: 600_000, y: 800_000 });
    let down = Vector::new(0, -5 * SCALE).normalize();
    assert_eq!(down, Vector { x: 0, y: -SCALE });
}

#[test]
fn normalize_of_zero_is_zero() {
    let z = Vector::new(0, 0);
    assert_eq!(z.normalize(), Vector { x: 0, y: 0 });
}

#[test]
fn vector_add_and_mul() {
    let v = Vector::new(SCALE, -SCALE);
    assert_eq!(v.add(Vector::new(1, 2)), Vector { x: SCALE + 1, y: -SCALE + 2 });
    // Scaling by half a unit halves each component, truncating toward zero.
    assert_eq!(v.mul(SCALE / 2), Vector { x: SCALE / 2, y: -SCALE / 2 });
    assert_eq!(Vector::new(3, -3).mul(SCALE / 2), Vector { x: 1, y: -1 });
}

use asteroids_core::geom::{circles_intersect, dist2_exec, isqrt, Vec2};
use asteroids_core::detect::{detect, Collider, HitBus, HitEvent};

fn v(x: i64, y: i64) -> Vec2 {
    Vec2 { x, y }
}

#[test]
fn touching_circles_do_not_hit() {
    // distance exactly equals the radius sum: strict inequality fails
    assert!(!circles_intersect(v(0, 0), 5, v(10, 0), 5));
}

#[test]
fn overlapping_circles_hit() {
    assert!(circles_intersect(v(0, 0), 5, v(9, 0), 5));
    assert!(circles_intersect(v(3, 4), 1, v(0, 0), 5));
}

#[test]
fn distant_circles_do_not_hit() {
    assert!(!circles_intersect(v(0, 0), 5, v(100, 100), 5));
}

#[test]
fn squared_distance_is_exact() {
    assert_eq!(dist2_exec(v(3, 4), v(0, 0)), 25);
    assert_eq!(dist2_exec(v(-3, -4), v(3, 4)), 100);
    assert_eq!(dist2_exec(v(7, 7), v(7, 7)), 0);
}

#[test]
fn integer_square_root() {
    assert_eq!(isqrt(0), 0);
    assert_eq!(isqrt(1), 1);
    assert_eq!(isqrt(15), 3);
    assert_eq!(isqrt(16), 4);
    assert_eq!(isqrt(u64::MAX), 0xFFFF_FFFF);
}

#[test]
fn detector_reports_each_intersecting_pair_in_order() {
    let a1 = Collider { id: 1, pos: v(0, 0), radius: 10 };
    let a2 = Collider { id: 2, pos: v(100, 0), radius: 10 };
    let b1 = Collider { id: 11, pos: v(5, 0), radius: 10 };
    let b2 = Collider { id: 12, pos: v(95, 0), radius: 10 };
    let out = detect(&vec![a1, a2], &vec![b1, b2]);
    // outer loop over hittables, inner over hurtables; a1 misses b2
    // and a2 misses b1 (distance 90 >= 20)
    assert_eq!(out.len(), 2);
    assert_eq!(out[0].hittable(), 1);
    assert_eq!(out[0].hurtable(), 11);
    assert_eq!(out[1].hittable(), 2);
    assert_eq!(out[1].hurtable(), 12);
}

#[test]
fn detector_skips_tangent_pairs() {
    let a = Collider { id: 1, pos: v(0, 0), radius: 5 };
    let b = Collider { id: 2, pos: v(10, 0), radius: 5 };
    assert_eq!(detect(&vec![a], &vec![b]).len(), 0);
}

#[test]
fn bus_drains_once_per_frame() {
    let mut bus = HitBus::new();
    bus.publish(vec![HitEvent::new(1, 2), HitEvent::new(3, 4)]);
    let first = bus.drain();
    assert_eq!(first.len(), 2);
    assert_eq!(first[0].hittable(), 1);
    assert_eq!(first[1].hurtable(), 4);
    let second = bus.drain();
    assert!(second.is_empty());
}

#[test]
fn bus_publish_drops_unread_events() {
    let mut bus = HitBus::new();
    bus.publish(vec![HitEvent::new(1, 2)]);
    bus.publish(vec![HitEvent::new(5, 6)]);
    let events = bus.drain();
    assert_eq!(events.len(), 1);
    assert_eq!(events[0].hittable(), 5);
}

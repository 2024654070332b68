use asteroids_core::detect::HitEvent;
use asteroids_core::geom::Vec2;
use asteroids_core::react::{classify, SizeClass};
use asteroids_core::world::{Category, World};
use rand::SeedableRng;
use rand::rngs::SmallRng;

fn v(x: i64, y: i64) -> Vec2 {
    Vec2 { x, y }
}

#[test]
fn tier_boundaries_are_half_open() {
    assert_eq!(classify(50), SizeClass::Big);
    assert_eq!(classify(59), SizeClass::Big);
    assert_eq!(classify(60), SizeClass::Small);
    assert_eq!(classify(30), SizeClass::Medium);
    assert_eq!(classify(39), SizeClass::Medium);
    assert_eq!(classify(40), SizeClass::Small);
    assert_eq!(classify(10), SizeClass::Small);
    // a radius outside every configured range behaves like small
    assert_eq!(classify(45), SizeClass::Small);
    assert_eq!(classify(0), SizeClass::Small);
}

#[test]
fn reactors_do_nothing_without_events() {
    let mut w = World::new(400, 300);
    let mut rng = SmallRng::seed_from_u64(21);
    w.spawn_asteroid(v(0, 0), 55, v(0, 0));
    let none: Vec<HitEvent> = Vec::new();
    let r1 = w.react_bullet_asteroid(&none, &mut rng);
    assert!(r1.despawns.is_empty() && r1.spawns.is_empty() && r1.particles.is_empty());
    let r2 = w.react_ship_hits(&none, &none, &none, &mut rng);
    assert!(r2.ship_deaths.is_empty() && r2.particles.is_empty());
    let r3 = w.react_ufo_hits(&none, &none, &mut rng);
    assert!(r3.despawns.is_empty() && r3.particles.is_empty());
}

#[test]
fn stale_references_miss_softly() {
    // an event naming entities that no longer exist: the identities
    // are still marked removed, but nothing is spawned and nothing
    // crashes
    let mut w = World::new(400, 300);
    let mut rng = SmallRng::seed_from_u64(22);
    let events = vec![HitEvent::new(900, 901)];
    let r = w.react_bullet_asteroid(&events, &mut rng);
    assert_eq!(r.despawns, vec![901, 900]);
    assert!(r.spawns.is_empty());
    assert!(r.particles.is_empty());
    w.apply(&r);

    let r = w.react_ship_hits(&events, &Vec::new(), &Vec::new(), &mut rng);
    assert!(r.ship_deaths.is_empty());
    assert!(r.particles.is_empty());
}

#[test]
fn despawned_entities_are_not_found() {
    let mut w = World::new(400, 300);
    let mut rng = SmallRng::seed_from_u64(23);
    let a = w.spawn_asteroid(v(0, 0), 15, v(0, 0));
    let b = w.spawn_bullet(v(5, 0), v(0, 0));
    assert!(w.get_entity(a).is_some());
    let events = w.detect_pair(Category::Bullet, Category::Asteroid);
    let r = w.react_bullet_asteroid(&events, &mut rng);
    w.apply(&r);
    assert!(w.get_entity(a).is_none());
    assert!(w.get_entity(b).is_none());
    // a position update against the despawned record is a no-op
    assert!(!w.set_position(a, v(10, 10)));
}

#[test]
fn an_empty_world_steps_quietly() {
    let mut w = World::new(400, 300);
    let mut rng = SmallRng::seed_from_u64(24);
    for _ in 0..5 {
        let visuals = w.step(16, &mut rng);
        assert!(visuals.is_empty());
    }
    assert!(w.entities.is_empty());
}

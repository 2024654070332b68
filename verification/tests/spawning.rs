use asteroids_core::geom::Vec2;
use asteroids_core::state::{ShipState, UfoState};
use asteroids_core::world::{Category, SpawnRequest, World};
use rand::SeedableRng;
use rand::rngs::SmallRng;

fn v(x: i64, y: i64) -> Vec2 {
    Vec2 { x, y }
}

fn tier_ranged(r: u64) -> bool {
    (10..20).contains(&r) || (30..40).contains(&r) || (50..60).contains(&r)
}

#[test]
fn timed_spawns_sit_just_outside_an_edge() {
    let mut w = World::new(400, 300);
    let mut rng = SmallRng::seed_from_u64(11);
    for _ in 0..200 {
        w.asteroid_spawn_tick(&mut rng);
    }
    assert!(!w.pending.is_empty());
    for req in w.pending.iter() {
        assert!(tier_ranged(req.radius));
        let m = 2 * req.radius as i64;
        let on_vertical = req.pos.x.abs() == 400 + m && (-300..300).contains(&req.pos.y);
        let on_horizontal = req.pos.y.abs() == 300 + m && (-400..400).contains(&req.pos.x);
        assert!(on_vertical || on_horizontal);
    }
}

#[test]
fn generation_resolves_every_request() {
    let mut w = World::new(400, 300);
    let mut rng = SmallRng::seed_from_u64(12);
    w.spawn_asteroid(v(0, 0), 35, v(0, 0));
    let before = w.entities.len();
    // queue two requests through the reaction path shape
    w.apply(&asteroids_core::react::Reaction {
        despawns: Vec::new(),
        ship_deaths: Vec::new(),
        spawns: vec![
            SpawnRequest { pos: v(10, 20), radius: 15 },
            SpawnRequest { pos: v(-50, 0), radius: 55 },
        ],
        particles: Vec::new(),
    });
    assert_eq!(w.pending.len(), 2);

    let visuals = w.asteroid_generation_pass(&mut rng);
    assert!(w.pending.is_empty());
    assert_eq!(w.entities.len(), before + 2);
    assert_eq!(visuals.len(), 2);

    let a = &w.entities[before];
    assert_eq!(a.category, Category::Asteroid);
    assert!(a.live && a.collidable && a.removal);
    assert_eq!(a.pos, v(10, 20));
    assert_eq!(a.radius, 15);
    assert!(a.vel.x.abs() <= 100 && a.vel.y.abs() <= 100);

    for (vis, nominal) in visuals.iter().zip([15u64, 55u64]) {
        assert!((6..12).contains(&(vis.radii.len() as u64)));
        for r in vis.radii.iter() {
            assert!(*r >= nominal / 2 && *r < nominal * 6 / 5);
        }
    }
}

#[test]
fn saucer_spawn_is_armed_and_inbound() {
    let mut w = World::new(400, 300);
    let mut rng = SmallRng::seed_from_u64(13);
    for _ in 0..100 {
        w.ufo_spawn_tick(&mut rng);
    }
    let ufos: Vec<_> = w
        .entities
        .iter()
        .filter(|e| e.live && e.category == Category::Ufo)
        .collect();
    assert!(!ufos.is_empty());
    for u in ufos {
        assert_eq!(u.pos.x.abs(), 430);
        assert!(u.pos.y.abs() <= 300);
        assert_eq!(u.vel.y, 0);
        // cruising toward the visible area
        if u.pos.x > 0 {
            assert!((-200..=-100).contains(&u.vel.x));
        } else {
            assert!((100..200).contains(&u.vel.x));
        }
        let w2 = u.weapon.unwrap();
        assert!((300..500).contains(&w2.force));
        assert!((1000..3000).contains(&w2.period));
        assert!(w2.triggered && w2.automatic);
        match u.ufo.unwrap() {
            UfoState::Alive { remaining } => assert!((1000..5000).contains(&remaining)),
            other => panic!("fresh saucer in state {:?}", other),
        }
    }
}

#[test]
fn saucer_veers_off_the_centerline_and_back() {
    let mut w = World::new(400, 300);
    let mut rng = SmallRng::seed_from_u64(14);
    let ufo = w.spawn_ufo(
        v(0, 100),
        UfoState::Alive { remaining: 1000 },
        asteroids_core::state::Weapon::new(1000, 400),
        v(150, 0),
        None,
    );
    // the cruise timer expires: veer away from the centerline, so at
    // a positive y the vertical velocity turns positive too
    w.ufo_state_pass(1000, &mut rng);
    let u = w.get_entity(ufo).unwrap();
    match u.ufo.unwrap() {
        UfoState::ChangingDirection { remaining } => assert!((1000..2000).contains(&remaining)),
        other => panic!("expected a direction change, got {:?}", other),
    }
    assert_eq!(u.vel.y, 100);
    assert_eq!(u.vel.x, 150);

    // the veer expires: level off and cruise again
    w.ufo_state_pass(2000, &mut rng);
    let u = w.get_entity(ufo).unwrap();
    match u.ufo.unwrap() {
        UfoState::Alive { remaining } => assert!((4000..8000).contains(&remaining)),
        other => panic!("expected cruising, got {:?}", other),
    }
    assert_eq!(u.vel.y, 0);
}

#[test]
fn saucer_targets_only_living_ships() {
    let mut w = World::new(400, 300);
    let mut rng = SmallRng::seed_from_u64(15);
    let ship = w.spawn_ship();
    w.ship_state_pass(0);
    assert_eq!(w.get_entity(ship).unwrap().ship, Some(ShipState::Alive));
    let ufo = w.spawn_ufo(
        v(100, 100),
        UfoState::Alive { remaining: 5000 },
        asteroids_core::state::Weapon::new(1000, 400),
        v(0, 0),
        None,
    );

    w.ufo_state_pass(16, &mut rng);
    let u = w.get_entity(ufo).unwrap();
    assert_eq!(u.target, Some(ship));
    assert!(u.weapon.unwrap().triggered);

    // with the ship dead the saucer goes untargeted and holds fire
    let events = w.detect_pair(Category::Asteroid, Category::Ship);
    assert!(events.is_empty());
    let hit = vec![asteroids_core::detect::HitEvent::new(ufo, ship)];
    let none: Vec<asteroids_core::detect::HitEvent> = Vec::new();
    let reaction = w.react_ship_hits(&none, &none, &hit, &mut rng);
    w.apply(&reaction);
    w.ufo_state_pass(16, &mut rng);
    let u = w.get_entity(ufo).unwrap();
    assert_eq!(u.target, None);
    assert!(!u.weapon.unwrap().triggered);
}

#[test]
fn a_full_frame_runs_the_whole_pipeline() {
    let mut w = World::new(400, 300);
    let mut rng = SmallRng::seed_from_u64(16);
    let ship = w.spawn_ship();
    w.spawn_asteroid(v(5, 0), 55, v(10, 0));
    // one frame: the ship leaves its zero-length spawn ramp before
    // detection runs, the overlap is detected, and the reaction puts
    // it straight into Dead with the full timer
    w.step(16, &mut rng);
    assert_eq!(
        w.get_entity(ship).unwrap().ship,
        Some(ShipState::Dead { remaining: 2000 })
    );
    assert!(w
        .entities
        .iter()
        .any(|e| e.live && e.category == Category::Explosion));
}

use asteroids_core::geom::{dist2_exec, Vec2};
use asteroids_core::state::ShipState;
use asteroids_core::world::{Category, World};
use rand::SeedableRng;
use rand::rngs::SmallRng;

fn v(x: i64, y: i64) -> Vec2 {
    Vec2 { x, y }
}

fn world() -> World {
    World::new(400, 300)
}

fn rng() -> SmallRng {
    SmallRng::seed_from_u64(0xA57E_2026)
}

/// Spawns the ship and ticks it through its zero-length initial
/// spawning window so it comes out alive, collidable and armed.
fn alive_ship(w: &mut World) -> u64 {
    let id = w.spawn_ship();
    w.ship_state_pass(0);
    let ship = w.get_entity(id).unwrap();
    assert_eq!(ship.ship, Some(ShipState::Alive));
    assert!(ship.collidable);
    assert!(ship.weapon.is_some());
    id
}

fn count_category(w: &World, cat: Category) -> usize {
    w.entities.iter().filter(|e| e.live && e.category == cat).count()
}

#[test]
fn ship_and_big_asteroid_one_frame() {
    // one Ship (Alive) and one big asteroid overlapping it
    let mut w = world();
    let mut r = rng();
    let ship = alive_ship(&mut w);
    let ship_pos = w.get_entity(ship).unwrap().pos;
    w.spawn_asteroid(v(5, 0), 55, v(0, 0));

    let events = w.detect_pair(Category::Asteroid, Category::Ship);
    assert_eq!(events.len(), 1);
    assert_eq!(events[0].hurtable(), ship);

    let none: Vec<asteroids_core::detect::HitEvent> = Vec::new();
    let reaction = w.react_ship_hits(&events, &none, &none, &mut r);
    assert_eq!(reaction.ship_deaths, vec![ship]);
    assert_eq!(reaction.particles.len(), 72);
    w.apply(&reaction);

    // the ship transitions to Dead with the full two-second timer and
    // is stripped of collidable, weapon, thrust and steering
    let s = w.get_entity(ship).unwrap();
    assert_eq!(s.ship, Some(ShipState::Dead { remaining: 2000 }));
    assert!(!s.collidable);
    assert!(s.weapon.is_none());
    assert!(!s.has_thrust);
    assert!(!s.has_steering);

    // exactly 6 x 12 = 72 particles, all within 20 units of the
    // ship's original position
    let particles: Vec<_> = w
        .entities
        .iter()
        .filter(|e| e.live && e.category == Category::Explosion)
        .collect();
    assert_eq!(particles.len(), 72);
    for p in particles {
        assert!(dist2_exec(p.pos, ship_pos) < 400);
        assert!(p.vel.x.abs() + p.vel.y.abs() >= 149);
    }
}

#[test]
fn bullet_and_medium_asteroid_one_frame() {
    // one Bullet and one medium asteroid overlapping
    let mut w = world();
    let mut r = rng();
    let asteroid = w.spawn_asteroid(v(0, 0), 35, v(0, 0));
    let bullet = w.spawn_bullet(v(10, 0), v(0, 0));

    let events = w.detect_pair(Category::Bullet, Category::Asteroid);
    assert_eq!(events.len(), 1);

    let reaction = w.react_bullet_asteroid(&events, &mut r);
    // both removed, exactly 2 small spawn requests, 3 x 12 particles
    assert_eq!(reaction.despawns, vec![asteroid, bullet]);
    assert_eq!(reaction.spawns.len(), 2);
    for s in reaction.spawns.iter() {
        assert_eq!(s.pos, v(0, 0));
        assert!((10..20).contains(&s.radius));
    }
    assert_eq!(reaction.particles.len(), 36);
    // particles scatter outward: speed in range on each axis, and the
    // overall speed reaches the lower end of the range up to rounding
    for p in reaction.particles.iter() {
        assert!(p.vel.x.abs() <= 100 && p.vel.y.abs() <= 100);
        assert!(p.vel.x.abs() + p.vel.y.abs() >= 49);
    }
    w.apply(&reaction);

    assert!(w.get_entity(asteroid).is_none());
    assert!(w.get_entity(bullet).is_none());
    assert_eq!(count_category(&w, Category::Explosion), 36);
    assert_eq!(w.pending.len(), 2);
}

#[test]
fn big_asteroid_splits_into_three_medium() {
    let mut w = world();
    let mut r = rng();
    w.spawn_asteroid(v(0, 0), 55, v(0, 0));
    w.spawn_bullet(v(10, 0), v(0, 0));
    let events = w.detect_pair(Category::Bullet, Category::Asteroid);
    let reaction = w.react_bullet_asteroid(&events, &mut r);
    assert_eq!(reaction.spawns.len(), 3);
    for s in reaction.spawns.iter() {
        assert!((30..40).contains(&s.radius));
    }
    assert_eq!(reaction.particles.len(), 60);
}

#[test]
fn small_asteroid_leaves_no_fragments() {
    let mut w = world();
    let mut r = rng();
    let asteroid = w.spawn_asteroid(v(0, 0), 15, v(0, 0));
    let bullet = w.spawn_bullet(v(5, 0), v(0, 0));
    let events = w.detect_pair(Category::Bullet, Category::Asteroid);
    let reaction = w.react_bullet_asteroid(&events, &mut r);
    assert_eq!(reaction.despawns, vec![asteroid, bullet]);
    assert!(reaction.spawns.is_empty());
    assert_eq!(reaction.particles.len(), 12);
}

#[test]
fn asteroid_hit_twice_reacts_once() {
    // two bullets hitting one asteroid the same frame: the second
    // event is a no-op thanks to the per-frame dedup set
    let mut w = world();
    let mut r = rng();
    let asteroid = w.spawn_asteroid(v(0, 0), 35, v(0, 0));
    let b1 = w.spawn_bullet(v(5, 0), v(0, 0));
    let b2 = w.spawn_bullet(v(-5, 0), v(0, 0));
    let events = w.detect_pair(Category::Bullet, Category::Asteroid);
    assert_eq!(events.len(), 2);
    let reaction = w.react_bullet_asteroid(&events, &mut r);
    assert_eq!(reaction.despawns, vec![asteroid, b1]);
    assert_eq!(reaction.spawns.len(), 2);
    assert_eq!(reaction.particles.len(), 36);
    // the second bullet survives the frame
    w.apply(&reaction);
    assert!(w.get_entity(b2).is_some());
}

#[test]
fn dead_ship_is_invisible_to_the_detector() {
    // collidable(ship) holds exactly while the ship is Alive, so a
    // dead ship produces no hit events even when overlapped
    let mut w = world();
    let mut r = rng();
    let ship = alive_ship(&mut w);
    w.spawn_asteroid(v(5, 0), 55, v(0, 0));

    let events = w.detect_pair(Category::Asteroid, Category::Ship);
    let none: Vec<asteroids_core::detect::HitEvent> = Vec::new();
    let reaction = w.react_ship_hits(&events, &none, &none, &mut r);
    w.apply(&reaction);
    assert_eq!(
        w.get_entity(ship).unwrap().ship,
        Some(ShipState::Dead { remaining: 2000 })
    );

    // same overlap, next frame: no event names the dead ship
    let events = w.detect_pair(Category::Asteroid, Category::Ship);
    assert!(events.is_empty());

    // and while spawning it stays untouchable
    w.ship_state_pass(2000);
    assert_eq!(
        w.get_entity(ship).unwrap().ship,
        Some(ShipState::Spawning { remaining: 2000 })
    );
    assert!(!w.get_entity(ship).unwrap().collidable);
    assert!(w.detect_pair(Category::Asteroid, Category::Ship).is_empty());

    // once alive again it is collidable once more
    w.ship_state_pass(2000);
    assert_eq!(w.get_entity(ship).unwrap().ship, Some(ShipState::Alive));
    assert!(w.get_entity(ship).unwrap().collidable);
}

#[test]
fn saucer_despawns_once_with_burst() {
    let mut w = world();
    let mut r = rng();
    let ufo = w.spawn_ufo(
        v(0, 0),
        asteroids_core::state::UfoState::Alive { remaining: 5000 },
        asteroids_core::state::Weapon::new(1000, 400),
        v(0, 0),
        None,
    );
    let b1 = w.spawn_bullet(v(5, 0), v(0, 0));
    w.spawn_asteroid(v(200, 200), 15, v(0, 0));

    let bullet_events = w.detect_pair(Category::Bullet, Category::Ufo);
    let asteroid_events = w.detect_pair(Category::Asteroid, Category::Ufo);
    assert_eq!(bullet_events.len(), 1);
    assert!(asteroid_events.is_empty());

    let reaction = w.react_ufo_hits(&bullet_events, &asteroid_events, &mut r);
    assert_eq!(reaction.despawns, vec![ufo, b1]);
    assert_eq!(reaction.particles.len(), 60);
    w.apply(&reaction);
    assert!(w.get_entity(ufo).is_none());
    assert!(w.get_entity(b1).is_none());
}

#[test]
fn boundary_wrap_mirrors_across_the_edge() {
    // an entity with radius r and the wrap tag crossing
    // x > half_width + 2r lands at -half_width - 2r, y unchanged
    let mut w = world();
    let ship = w.spawn_ship();
    assert!(w.set_position(ship, v(450, 120)));
    w.boundary_pass();
    let s = w.get_entity(ship).unwrap();
    // ship radius is 12: 450 - 24 > 400, so x mirrors to -(400 + 24)
    assert_eq!(s.pos, v(-424, 120));

    // inside the margin nothing moves
    assert!(w.set_position(ship, v(410, -50)));
    w.boundary_pass();
    assert_eq!(w.get_entity(ship).unwrap().pos, v(410, -50));
}

#[test]
fn boundary_removal_despawns_what_fully_exits() {
    let mut w = world();
    let keep = w.spawn_asteroid(v(300, 0), 20, v(0, 0));
    let gone = w.spawn_asteroid(v(0, 345), 2, v(0, 0));
    w.boundary_pass();
    assert!(w.get_entity(keep).is_some());
    assert!(w.get_entity(gone).is_none());
}

#[test]
fn explosions_expire_and_despawn() {
    let mut w = world();
    let mut r = rng();
    w.spawn_asteroid(v(0, 0), 15, v(0, 0));
    w.spawn_bullet(v(5, 0), v(0, 0));
    let events = w.detect_pair(Category::Bullet, Category::Asteroid);
    let reaction = w.react_bullet_asteroid(&events, &mut r);
    w.apply(&reaction);
    assert_eq!(count_category(&w, Category::Explosion), 12);
    // particle lifetimes stay under 700 ms
    w.expiration_pass(700);
    assert_eq!(count_category(&w, Category::Explosion), 0);
}

#[test]
fn armed_ship_fires_along_its_heading() {
    let mut w = world();
    let ship = alive_ship(&mut w);
    assert!(w.fire_input(ship, true, true));
    w.weapon_pass(100);
    let bullets: Vec<_> = w
        .entities
        .iter()
        .filter(|e| e.live && e.category == Category::Bullet)
        .cloned()
        .collect();
    assert_eq!(bullets.len(), 1);
    // heading +x, muzzle at radius + 10 = 22, speed = force = 1000
    assert_eq!(bullets[0].pos, v(22, 0));
    assert_eq!(bullets[0].vel, v(1000, 0));
    // the trigger is cleared and the cooldown restarted
    let s = w.get_entity(ship).unwrap();
    assert!(!s.weapon.unwrap().triggered);
    assert_eq!(s.weapon.unwrap().cooldown, 100);
    // no second shot while cooling down
    assert!(w.fire_input(ship, true, true));
    w.weapon_pass(50);
    assert_eq!(count_category(&w, Category::Bullet), 1);
}

#[test]
fn firing_follows_the_heading() {
    let mut w = world();
    let ship = alive_ship(&mut w);
    // steer to face straight up
    assert!(w.set_facing(ship, v(0, 100)));
    assert!(w.fire_input(ship, true, true));
    w.weapon_pass(100);
    let bullets: Vec<_> = w
        .entities
        .iter()
        .filter(|e| e.live && e.category == Category::Bullet)
        .cloned()
        .collect();
    assert_eq!(bullets.len(), 1);
    assert_eq!(bullets[0].pos, v(0, 22));
    assert_eq!(bullets[0].vel, v(0, 1000));
}

#[test]
fn saucer_aims_at_the_target_ship() {
    let mut w = world();
    let ship = alive_ship(&mut w);
    assert!(w.set_position(ship, v(300, 0)));
    let ufo = w.spawn_ufo(
        v(0, 0),
        asteroids_core::state::UfoState::Alive { remaining: 5000 },
        asteroids_core::state::Weapon {
            cooldown: 0,
            period: 1000,
            force: 400,
            triggered: true,
            automatic: true,
        },
        v(0, 0),
        Some(ship),
    );
    w.weapon_pass(0);
    let bullets: Vec<_> = w
        .entities
        .iter()
        .filter(|e| e.live && e.category == Category::Bullet)
        .cloned()
        .collect();
    assert_eq!(bullets.len(), 1);
    // aimed straight at the ship: saucer radius + 10 = 25 out, speed 400
    assert_eq!(bullets[0].pos, v(25, 0));
    assert_eq!(bullets[0].vel, v(400, 0));
    let u = w.get_entity(ufo).unwrap();
    assert!(!u.weapon.unwrap().triggered);
}

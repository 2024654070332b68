use asteroids_core::state::{
    ship_tick, weapon_tick, weapon_set_trigger, flick_tick, Flick, ShipState, Weapon,
};

#[test]
fn ship_stays_alive_without_events() {
    let out = ship_tick(ShipState::Alive, 500);
    assert_eq!(out.state, ShipState::Alive);
    assert!(!out.enter_spawning);
    assert!(!out.become_alive);
}

#[test]
fn dead_ship_counts_down_then_respawns() {
    let out = ship_tick(ShipState::Dead { remaining: 2000 }, 500);
    assert_eq!(out.state, ShipState::Dead { remaining: 1500 });
    assert!(!out.enter_spawning);

    let out = ship_tick(ShipState::Dead { remaining: 1500 }, 1500);
    assert_eq!(out.state, ShipState::Spawning { remaining: 2000 });
    assert!(out.enter_spawning);
    assert!(!out.become_alive);
}

#[test]
fn spawning_ship_counts_down_then_lives() {
    let out = ship_tick(ShipState::Spawning { remaining: 2000 }, 800);
    assert_eq!(out.state, ShipState::Spawning { remaining: 1200 });

    let out = ship_tick(ShipState::Spawning { remaining: 1200 }, 5000);
    assert_eq!(out.state, ShipState::Alive);
    assert!(out.become_alive);
}

#[test]
fn weapon_fires_only_ready_and_triggered() {
    let mut w = Weapon::new(100, 1000);
    assert_eq!(w.cooldown, 100);

    // ready but not triggered: no shot
    assert!(!weapon_tick(&mut w, 100));
    assert_eq!(w.cooldown, 0);

    // triggered and ready: fires, clears the trigger, restarts
    w.triggered = true;
    assert!(weapon_tick(&mut w, 0));
    assert!(!w.triggered);
    assert_eq!(w.cooldown, 100);

    // triggered but cooling down: holds the latch
    w.triggered = true;
    assert!(!weapon_tick(&mut w, 50));
    assert!(w.triggered);
    assert_eq!(w.cooldown, 50);
}

#[test]
fn manual_trigger_latches_edge_presses() {
    let mut w = Weapon::new(100, 1000);
    weapon_set_trigger(&mut w, true, false);
    assert!(!w.triggered);
    weapon_set_trigger(&mut w, true, true);
    assert!(w.triggered);
    // stays latched until a shot fires
    weapon_set_trigger(&mut w, false, false);
    assert!(w.triggered);
}

#[test]
fn automatic_trigger_reads_held_input() {
    let mut w = Weapon::new(100, 1000);
    w.automatic = true;
    weapon_set_trigger(&mut w, true, false);
    assert!(w.triggered);
}

#[test]
fn flick_toggles_on_expiry_and_reloads() {
    let mut f = Flick::new(80);
    assert!(!flick_tick(&mut f, 30));
    assert_eq!(f.remaining, 50);
    assert!(flick_tick(&mut f, 60));
    assert_eq!(f.remaining, 80);
}

//! Per-entity lifecycle state machines: the ship's alive/dead/spawning
//! cycle and the weapon cooldown latch.  Each transition is a pure
//! function of the current state and the elapsed frame time, so the
//! world pass that applies it is exact.

use vstd::prelude::*;

verus! {

/// Milliseconds the ship stays inert after being hit.
pub const DEAD_MS: u64 = 2000;

/// Milliseconds of the respawn invulnerability window.
pub const SPAWNING_MS: u64 = 2000;

/// Cooldown period of a freshly re-armed ship weapon.
pub const SHIP_WEAPON_PERIOD_MS: u64 = 100;

/// Force a re-armed ship weapon gives its bullets.
pub const SHIP_WEAPON_FORCE: u64 = 1000;

/// Upper bound any weapon's force must stay below so bullet velocity
/// arithmetic cannot overflow.
pub const FORCE_LIMIT: u64 = 1_000_000;

pub open spec fn sat_sub(a: u64, dt: u64) -> u64 {
    if a <= dt { 0u64 } else { (a - dt) as u64 }
}

/// The ship's lifecycle state.  `Dead` and `Spawning` carry the
/// milliseconds left until the next transition.
#[derive(Clone, Copy, Debug, PartialEq, Eq, Structural)]
pub enum ShipState {
    Alive,
    Dead { remaining: u64 },
    Spawning { remaining: u64 },
}

/// Result of advancing a ship's state by one frame: the next state and
/// the component changes owed on the transitions taken.
#[derive(Clone, Copy, Debug, PartialEq, Eq, Structural)]
pub struct ShipTick {
    pub state: ShipState,
    /// Entering `Spawning`: re-attach shape, physics and flicker.
    pub enter_spawning: bool,
    /// Entering `Alive`: re-attach weapon and collidable, drop flicker.
    pub become_alive: bool,
}

/// `Alive` rests; `Dead` counts down into `Spawning`; `Spawning` counts
/// down into `Alive`.  At most one transition per frame.
pub open spec fn ship_tick_spec(s: ShipState, dt: u64) -> ShipTick {
    match s {
        ShipState::Alive => ShipTick { state: ShipState::Alive, enter_spawning: false, become_alive: false },
        ShipState::Dead { remaining } => {
            let left = sat_sub(remaining, dt);
            if left == 0 {
                ShipTick {
                    state: ShipState::Spawning { remaining: SPAWNING_MS },
                    enter_spawning: true,
                    become_alive: false,
                }
            } else {
                ShipTick { state: ShipState::Dead { remaining: left }, enter_spawning: false, become_alive: false }
            }
        },
        ShipState::Spawning { remaining } => {
            let left = sat_sub(remaining, dt);
            if left == 0 {
                ShipTick { state: ShipState::Alive, enter_spawning: false, become_alive: true }
            } else {
                ShipTick {
                    state: ShipState::Spawning { remaining: left },
                    enter_spawning: false,
                    become_alive: false,
                }
            }
        },
    }
}

/// Advances a ship's state by `dt` milliseconds.
pub fn ship_tick(s: ShipState, dt: u64) -> (out: ShipTick)
    ensures
        out == ship_tick_spec(s, dt),
{
    match s {
        ShipState::Alive => ShipTick { state: ShipState::Alive, enter_spawning: false, become_alive: false },
        ShipState::Dead { remaining } => {
            let left: u64 = if remaining <= dt { 0 } else { remaining - dt };
            if left == 0 {
                ShipTick {
                    state: ShipState::Spawning { remaining: SPAWNING_MS },
                    enter_spawning: true,
                    become_alive: false,
                }
            } else {
                ShipTick { state: ShipState::Dead { remaining: left }, enter_spawning: false, become_alive: false }
            }
        },
        ShipState::Spawning { remaining } => {
            let left: u64 = if remaining <= dt { 0 } else { remaining - dt };
            if left == 0 {
                ShipTick { state: ShipState::Alive, enter_spawning: false, become_alive: true }
            } else {
                ShipTick {
                    state: ShipState::Spawning { remaining: left },
                    enter_spawning: false,
                    become_alive: false,
                }
            }
        },
    }
}

/// The saucer's lifecycle state: cruising, or veering off the
/// horizontal centerline for a moment.
#[derive(Clone, Copy, Debug, PartialEq, Eq, Structural)]
pub enum UfoState {
    Alive { remaining: u64 },
    ChangingDirection { remaining: u64 },
}

/// A weapon: a repeating cooldown plus a trigger latch.
#[derive(Clone, Copy, Debug, PartialEq, Eq, Structural)]
pub struct Weapon {
    /// Milliseconds until the weapon is ready again.
    pub cooldown: u64,
    /// Cooldown restarted after each shot.
    pub period: u64,
    /// Force handed to the bullets it fires.
    pub force: u64,
    /// Set by input or targeting; cleared when a shot fires.
    pub triggered: bool,
    /// An automatic weapon re-derives the trigger every tick from the
    /// held input instead of latching edge presses.
    pub automatic: bool,
}

impl Weapon {
    pub open spec fn wf(self) -> bool {
        self.force <= FORCE_LIMIT
    }

    /// A weapon with the given rate of fire, untriggered and manual;
    /// the first shot waits out one full period.
    pub fn new(period: u64, force: u64) -> (w: Weapon)
        requires
            force <= FORCE_LIMIT,
        ensures
            w == (Weapon { cooldown: period, period, force, triggered: false, automatic: false }),
    {
        Weapon { cooldown: period, period, force, triggered: false, automatic: false }
    }
}

impl Default for Weapon {
    /// An always-ready manual weapon of force 1000.
    fn default() -> (w: Weapon)
        ensures
            w == (Weapon { cooldown: 0u64, period: 0u64, force: 1000u64, triggered: false, automatic: false }),
    {
        Weapon { cooldown: 0, period: 0, force: 1000, triggered: false, automatic: false }
    }
}

impl Default for UfoState {
    /// A saucer starts cruising for five seconds.
    fn default() -> (s: UfoState)
        ensures
            s == (UfoState::Alive { remaining: 5000u64 }),
    {
        UfoState::Alive { remaining: 5000 }
    }
}

/// The cooldown ticks every frame whatever the trigger holds; the shot
/// fires exactly when the cooldown has elapsed and the trigger is set,
/// and firing clears the trigger and restarts the cooldown.
pub open spec fn weapon_tick_spec(w: Weapon, dt: u64) -> (Weapon, bool) {
    let left = sat_sub(w.cooldown, dt);
    if left == 0 && w.triggered {
        (Weapon { cooldown: w.period, triggered: false, ..w }, true)
    } else {
        (Weapon { cooldown: left, ..w }, false)
    }
}

/// Advances a weapon's cooldown; returns whether a shot fires now.
pub fn weapon_tick(w: &mut Weapon, dt: u64) -> (fired: bool)
    ensures
        (*final(w), fired) == weapon_tick_spec(*old(w), dt),
{
    let left: u64 = if w.cooldown <= dt { 0 } else { w.cooldown - dt };
    if left == 0 && w.triggered {
        w.cooldown = w.period;
        w.triggered = false;
        true
    } else {
        w.cooldown = left;
        false
    }
}

/// Feeds one frame of fire input into the trigger latch: an automatic
/// weapon reads the held state, a manual one latches the edge press,
/// and an already set trigger stays set until a shot fires.
pub fn weapon_set_trigger(w: &mut Weapon, pressed: bool, just_pressed: bool)
    ensures
        *final(w) == (Weapon {
            triggered: old(w).triggered || (if old(w).automatic { pressed } else { just_pressed }),
            ..*old(w)
        }),
{
    let wanted: bool = if w.automatic { pressed } else { just_pressed };
    w.triggered = w.triggered || wanted;
}

/// A flicker effect: a repeating timer that toggles visibility each
/// time it runs out.
#[derive(Clone, Copy, Debug, PartialEq, Eq, Structural)]
pub struct Flick {
    pub period: u64,
    pub remaining: u64,
}

impl Flick {
    /// A flicker with the given toggle frequency.
    pub fn new(period: u64) -> (f: Flick)
        ensures
            f == (Flick { period, remaining: period }),
    {
        Flick { period, remaining: period }
    }
}

/// One frame of a flicker timer: counts down, and on expiry reloads and
/// asks for a visibility toggle.
pub open spec fn flick_tick_spec(f: Flick, dt: u64) -> (Flick, bool) {
    let left = sat_sub(f.remaining, dt);
    if left == 0 {
        (Flick { period: f.period, remaining: f.period }, true)
    } else {
        (Flick { period: f.period, remaining: left }, false)
    }
}

/// Advances a flicker timer; returns whether visibility toggles now.
pub fn flick_tick(f: &mut Flick, dt: u64) -> (toggle: bool)
    ensures
        (*final(f), toggle) == flick_tick_spec(*old(f), dt),
{
    let left: u64 = if f.remaining <= dt { 0 } else { f.remaining - dt };
    if left == 0 {
        f.remaining = f.period;
        true
    } else {
        f.remaining = left;
        false
    }
}

} // verus!


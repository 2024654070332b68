//! The play-field model: entities with their components, the world
//! invariant, the per-frame passes that advance lifecycles, and the
//! deferred application of reaction commands.
//!
//! Entities are records in one vector; despawning marks a record dead
//! and leaves it in place, so identities stay unique for the whole run
//! and stale references miss softly.  All mutation driven by hit events
//! is accumulated in a [`crate::react::Reaction`] and applied in one
//! pass, never while the entity list is being scanned.

use vstd::prelude::*;
use vstd::pervasive::VecAdditionalExecFns;
use crate::geom::{Vec2, vec_in, POS_LIMIT, ARENA_LIMIT, RADIUS_LIMIT};
use crate::detect::{Collider, HitEvent, colliders_wf, detect, detect_spec, unique_ids};
use crate::react::Reaction;
use crate::state::{
    ShipState, UfoState, Weapon, Flick, ship_tick, ship_tick_spec, flick_tick_spec,
    SPAWNING_MS, SHIP_WEAPON_PERIOD_MS, SHIP_WEAPON_FORCE, sat_sub,
};
use crate::boundary::{
    half_extent_ok, wrap_coord_spec, wrap_position, exits_play_area, exits_play_area_spec,
};

verus! {

/// Collision radius of the ship.
pub const SHIP_RADIUS: u64 = 12;

/// Collision radius of a bullet.
pub const BULLET_RADIUS: u64 = 2;

/// Collision radius of a saucer.
pub const UFO_RADIUS: u64 = 15;

/// Flicker period of a respawning ship, in milliseconds.
pub const SHIP_FLICK_MS: u64 = 80;

/// An entity's gameplay role.
#[derive(Clone, Copy, Debug, PartialEq, Eq, Structural)]
pub enum Category {
    Ship,
    Bullet,
    Asteroid,
    Ufo,
    Explosion,
}

/// Coordinate bound for a category: spawn-seeding entities keep a
/// margin below `POS_LIMIT` so bullets and particles placed beside
/// them stay representable.
pub open spec fn pos_bound(cat: Category) -> i64 {
    match cat {
        Category::Ship => ARENA_LIMIT,
        Category::Asteroid => ARENA_LIMIT,
        Category::Ufo => ARENA_LIMIT,
        Category::Bullet => POS_LIMIT,
        Category::Explosion => POS_LIMIT,
    }
}

/// One world record: identity, role, spatial state and components.
/// Component fields mirror the tags the host attaches: a `None` or
/// `false` component is simply absent.
#[derive(Clone, Copy, Debug)]
pub struct Entity {
    pub id: u64,
    /// Despawned records stay in place with `live == false`.
    pub live: bool,
    pub category: Category,
    pub pos: Vec2,
    pub radius: u64,
    pub vel: Vec2,
    /// Unit heading scaled by 100; used to aim a ship's bullets.
    pub facing: Vec2,
    /// Eligible for collision detection.
    pub collidable: bool,
    /// Boundary policy: wrap to the mirrored edge when fully outside.
    pub wrap: bool,
    /// Boundary policy: despawn when fully outside.
    pub removal: bool,
    pub visible: bool,
    pub has_shape: bool,
    pub has_thrust: bool,
    pub has_steering: bool,
    pub ship: Option<ShipState>,
    pub ufo: Option<UfoState>,
    pub weapon: Option<Weapon>,
    /// Entity the weapon is aimed at, if any.
    pub target: Option<u64>,
    pub flick: Option<Flick>,
    /// Milliseconds until the entity expires and despawns.
    pub expiration: Option<u64>,
}

impl Entity {
    /// Record well-formedness.  Besides representation bounds it pins
    /// the component shape of each role, and in particular the ship
    /// invulnerability invariant: a ship is collidable exactly while
    /// its state is `Alive`.
    pub open spec fn wf(self) -> bool {
        &&& vec_in(self.pos, pos_bound(self.category))
        &&& self.radius <= RADIUS_LIMIT
        &&& vec_in(self.facing, 100)
        &&& (self.ship is Some <==> self.category is Ship)
        &&& (self.ufo is Some <==> self.category is Ufo)
        &&& (self.weapon is Some ==> self.category is Ship || self.category is Ufo)
        &&& (self.ship is Some ==> (self.collidable <==> self.ship == Some(ShipState::Alive)))
        &&& (self.weapon is Some ==> self.weapon.unwrap().wf())
    }
}

/// A neutral record used as the base every constructor adjusts.
pub(crate) fn blank_entity(id: u64, category: Category, pos: Vec2, radius: u64) -> (e: Entity)
    ensures
        e == blank_entity_spec(id, category, pos, radius),
{
    Entity {
        id,
        live: true,
        category,
        pos,
        radius,
        vel: Vec2 { x: 0, y: 0 },
        facing: Vec2 { x: 100, y: 0 },
        collidable: false,
        wrap: false,
        removal: false,
        visible: true,
        has_shape: true,
        has_thrust: false,
        has_steering: false,
        ship: None,
        ufo: None,
        weapon: None,
        target: None,
        flick: None,
        expiration: None,
    }
}

pub open spec fn blank_entity_spec(id: u64, category: Category, pos: Vec2, radius: u64) -> Entity {
    Entity {
        id,
        live: true,
        category,
        pos,
        radius,
        vel: Vec2 { x: 0, y: 0 },
        facing: Vec2 { x: 100, y: 0 },
        collidable: false,
        wrap: false,
        removal: false,
        visible: true,
        has_shape: true,
        has_thrust: false,
        has_steering: false,
        ship: None,
        ufo: None,
        weapon: None,
        target: None,
        flick: None,
        expiration: None,
    }
}

/// The live entity a lookup finds for an identity, if any.
pub open spec fn lookup(ents: Seq<Entity>, id: u64) -> Option<Entity>
    decreases ents.len(),
{
    if ents.len() == 0 {
        None
    } else if ents[0].live && ents[0].id == id {
        Some(ents[0])
    } else {
        lookup(ents.drop_first(), id)
    }
}

/// Relates `lookup` to the indices of the record vector.
pub proof fn lemma_lookup_index(ents: Seq<Entity>, id: u64)
    ensures
        match lookup(ents, id) {
            Some(e) => exists|k: int|
                0 <= k < ents.len() && #[trigger] ents[k] == e && e.live && e.id == id,
            None => forall|k: int|
                0 <= k < ents.len() ==> !((#[trigger] ents[k]).live && ents[k].id == id),
        },
    decreases ents.len(),
{
    if ents.len() == 0 {
    } else if ents[0].live && ents[0].id == id {
        assert(ents[0] == ents[0]);
    } else {
        lemma_lookup_index(ents.drop_first(), id);
        let rest = ents.drop_first();
        match lookup(ents, id) {
            Some(e) => {
                let k = choose|k: int|
                    0 <= k < rest.len() && #[trigger] rest[k] == e && e.live && e.id == id;
                assert(ents[k + 1] == rest[k]);
            },
            None => {
                assert forall|k: int|
                    0 <= k < ents.len() implies !((#[trigger] ents[k]).live && ents[k].id == id) by {
                    if k > 0 {
                        assert(rest[k - 1] == ents[k]);
                    }
                }
            },
        }
    }
}

pub open spec fn collider_of(e: Entity) -> Collider {
    Collider { id: e.id, pos: e.pos, radius: e.radius }
}

pub open spec fn in_detector_set(e: Entity, cat: Category) -> bool {
    e.live && e.collidable && e.category == cat
}

/// Collision snapshot of every live, collidable entity of a category,
/// in record order.
pub open spec fn colliders_spec(ents: Seq<Entity>, cat: Category) -> Seq<Collider>
    decreases ents.len(),
{
    if ents.len() == 0 {
        Seq::empty()
    } else {
        let head: Seq<Collider> = if in_detector_set(ents[0], cat) {
            seq![collider_of(ents[0])]
        } else {
            Seq::empty()
        };
        head + colliders_spec(ents.drop_first(), cat)
    }
}

/// The snapshot row at `j` is the image of some qualifying record.
pub open spec fn collider_row_ok(ents: Seq<Entity>, cat: Category, j: int) -> bool {
    exists|k: int|
        0 <= k < ents.len() && in_detector_set(#[trigger] ents[k], cat)
            && colliders_spec(ents, cat)[j] == collider_of(ents[k])
}

/// Every snapshot entry comes from a qualifying record, and every
/// qualifying record appears in the snapshot.
pub proof fn lemma_colliders_membership(ents: Seq<Entity>, cat: Category)
    ensures
        forall|j: int| 0 <= j < colliders_spec(ents, cat).len()
            ==> #[trigger] collider_row_ok(ents, cat, j),
        forall|k: int| 0 <= k < ents.len() && in_detector_set(#[trigger] ents[k], cat)
            ==> colliders_spec(ents, cat).contains(collider_of(ents[k])),
    decreases ents.len(),
{
    if ents.len() == 0 {
    } else {
        let rest = ents.drop_first();
        lemma_colliders_membership(rest, cat);
        let cs = colliders_spec(ents, cat);
        let tail = colliders_spec(rest, cat);
        let head_len = cs.len() - tail.len();
        assert forall|j: int| 0 <= j < cs.len() implies #[trigger] collider_row_ok(ents, cat, j) by {
            if j < head_len {
                assert(in_detector_set(ents[0], cat) && cs[j] == collider_of(ents[0]));
            } else {
                assert(tail[j - head_len] == cs[j]);
                assert(collider_row_ok(rest, cat, j - head_len));
                let k = choose|k: int|
                    0 <= k < rest.len() && in_detector_set(#[trigger] rest[k], cat)
                        && colliders_spec(rest, cat)[j - head_len] == collider_of(rest[k]);
                assert(ents[k + 1] == rest[k]);
                assert(in_detector_set(ents[k + 1], cat) && cs[j] == collider_of(ents[k + 1]));
            }
        }
        assert forall|k: int| 0 <= k < ents.len() && in_detector_set(#[trigger] ents[k], cat)
            implies cs.contains(collider_of(ents[k])) by {
            if k == 0 {
                assert(cs[0] == collider_of(ents[0]));
            } else {
                assert(rest[k - 1] == ents[k]);
                assert(tail.contains(collider_of(rest[k - 1])));
                let j = choose|j: int| 0 <= j < tail.len() && tail[j] == collider_of(rest[k - 1]);
                assert(cs[head_len + j] == collider_of(ents[k]));
            }
        }
    }
}

pub open spec fn entity_ids_unique(ents: Seq<Entity>) -> bool {
    forall|i: int, j: int| 0 <= i < j < ents.len()
        ==> (#[trigger] ents[i]).id != (#[trigger] ents[j]).id
}

/// Distinct records give distinct snapshot identities.
pub proof fn lemma_colliders_unique(ents: Seq<Entity>, cat: Category)
    requires
        entity_ids_unique(ents),
    ensures
        unique_ids(colliders_spec(ents, cat)),
{
    let cs = colliders_spec(ents, cat);
    assert forall|i: int, j: int| 0 <= i < j < cs.len()
        implies (#[trigger] cs[i]).id != (#[trigger] cs[j]).id by {
        lemma_colliders_distinct_rows(ents, cat, i, j);
    }
}

/// Two distinct snapshot rows never share an identity when records do
/// not.
proof fn lemma_colliders_distinct_rows(ents: Seq<Entity>, cat: Category, i: int, j: int)
    requires
        entity_ids_unique(ents),
        0 <= i < j < colliders_spec(ents, cat).len(),
    ensures
        colliders_spec(ents, cat)[i].id != colliders_spec(ents, cat)[j].id,
    decreases ents.len(),
{
    let cs = colliders_spec(ents, cat);
    let rest = ents.drop_first();
    let tail = colliders_spec(rest, cat);
    let head_len = cs.len() - tail.len();
    assert(ents.len() > 0);
    assert forall|a: int, b: int| 0 <= a < b < rest.len()
        implies (#[trigger] rest[a]).id != (#[trigger] rest[b]).id by {
        assert(ents[a + 1] == rest[a]);
        assert(ents[b + 1] == rest[b]);
    }
    if i < head_len {
        // row i is the head record; row j lies in the tail
        assert(cs[i] == collider_of(ents[0]));
        assert(tail[j - head_len] == cs[j]);
        lemma_colliders_membership(rest, cat);
        assert(collider_row_ok(rest, cat, j - head_len));
        let k = choose|k: int|
            0 <= k < rest.len() && in_detector_set(#[trigger] rest[k], cat)
                && colliders_spec(rest, cat)[j - head_len] == collider_of(rest[k]);
        assert(ents[k + 1] == rest[k]);
        assert(ents[0].id != ents[k + 1].id);
    } else {
        lemma_colliders_distinct_rows(rest, cat, i - head_len, j - head_len);
        assert(tail[i - head_len] == cs[i]);
        assert(tail[j - head_len] == cs[j]);
    }
}

/// An asteroid the reaction or spawn policy asks for: position and
/// nominal radius are fixed here, velocity and outline are generated
/// in the second phase of the spawn.
#[derive(Clone, Copy, Debug, PartialEq, Eq, Structural)]
pub struct SpawnRequest {
    pub pos: Vec2,
    pub radius: u64,
}

impl SpawnRequest {
    pub open spec fn wf(self) -> bool {
        vec_in(self.pos, ARENA_LIMIT) && 1 <= self.radius <= RADIUS_LIMIT
    }
}

/// The whole play field.
pub struct World {
    pub entities: Vec<Entity>,
    /// Identity for the next record; identities are never reused.
    pub next_id: u64,
    pub half_width: i64,
    pub half_height: i64,
    /// Asteroid spawn requests awaiting their generation phase.
    pub pending: Vec<SpawnRequest>,
}

impl World {
    /// The world invariant: well-formed records, unique identities
    /// below the allocation counter, a sane play rectangle, and
    /// well-formed pending spawn requests.
    pub open spec fn wf(self) -> bool {
        &&& half_extent_ok(self.half_width)
        &&& half_extent_ok(self.half_height)
        &&& forall|k: int| 0 <= k < self.entities@.len() ==> (#[trigger] self.entities@[k]).wf()
        &&& entity_ids_unique(self.entities@)
        &&& forall|k: int| 0 <= k < self.entities@.len()
            ==> (#[trigger] self.entities@[k]).id < self.next_id
        &&& forall|k: int| 0 <= k < self.pending@.len() ==> (#[trigger] self.pending@[k]).wf()
    }

    /// An empty play field of the given half-extents.
    pub fn new(half_width: i64, half_height: i64) -> (w: World)
        requires
            half_extent_ok(half_width),
            half_extent_ok(half_height),
        ensures
            w.wf(),
            w.entities@.len() == 0,
            w.pending@.len() == 0,
            w.half_width == half_width,
            w.half_height == half_height,
            w.next_id == 0,
    {
        World {
            entities: Vec::new(),
            next_id: 0,
            half_width,
            half_height,
            pending: Vec::new(),
        }
    }

    fn alloc_id(&mut self) -> (id: u64)
        requires
            old(self).next_id < u64::MAX,
        ensures
            id == old(self).next_id,
            final(self).next_id == old(self).next_id + 1,
            final(self).entities == old(self).entities,
            final(self).pending == old(self).pending,
            final(self).half_width == old(self).half_width,
            final(self).half_height == old(self).half_height,
    {
        let id = self.next_id;
        self.next_id = self.next_id + 1;
        id
    }

    /// The record a fresh ship gets: spawning at the origin with a
    /// zero-length invulnerability ramp already running, wrapped at the
    /// boundary, not yet collidable or armed.
    pub open spec fn ship_entity(id: u64) -> Entity {
        Entity {
            ship: Some(ShipState::Spawning { remaining: 0 }),
            wrap: true,
            has_thrust: true,
            has_steering: true,
            flick: Some(Flick { period: SHIP_FLICK_MS, remaining: SHIP_FLICK_MS }),
            ..blank_entity_spec(id, Category::Ship, Vec2 { x: 0, y: 0 }, SHIP_RADIUS)
        }
    }

    /// Spawns the ship at the center of the play field.
    pub fn spawn_ship(&mut self) -> (id: u64)
        requires
            old(self).wf(),
            old(self).next_id < u64::MAX,
        ensures
            final(self).wf(),
            id == old(self).next_id,
            final(self).entities@ == old(self).entities@.push(Self::ship_entity(id)),
            final(self).next_id == old(self).next_id + 1,
            final(self).pending == old(self).pending,
            final(self).half_width == old(self).half_width,
            final(self).half_height == old(self).half_height,
    {
        let id = self.alloc_id();
        let base = blank_entity(id, Category::Ship, Vec2 { x: 0, y: 0 }, SHIP_RADIUS);
        let e = Entity {
            ship: Some(ShipState::Spawning { remaining: 0 }),
            wrap: true,
            has_thrust: true,
            has_steering: true,
            flick: Some(Flick { period: SHIP_FLICK_MS, remaining: SHIP_FLICK_MS }),
            ..base
        };
        self.entities.push(e);
        id
    }

    /// The record of an asteroid: collidable, removed at the boundary.
    pub open spec fn asteroid_entity(id: u64, pos: Vec2, radius: u64, vel: Vec2) -> Entity {
        Entity {
            collidable: true,
            removal: true,
            vel,
            ..blank_entity_spec(id, Category::Asteroid, pos, radius)
        }
    }

    /// Spawns an asteroid with a known position, radius and velocity.
    pub fn spawn_asteroid(&mut self, pos: Vec2, radius: u64, vel: Vec2) -> (id: u64)
        requires
            old(self).wf(),
            old(self).next_id < u64::MAX,
            vec_in(pos, ARENA_LIMIT),
            1 <= radius <= RADIUS_LIMIT,
        ensures
            final(self).wf(),
            id == old(self).next_id,
            final(self).entities@ == old(self).entities@.push(Self::asteroid_entity(id, pos, radius, vel)),
            final(self).next_id == old(self).next_id + 1,
            final(self).pending == old(self).pending,
            final(self).half_width == old(self).half_width,
            final(self).half_height == old(self).half_height,
    {
        let id = self.alloc_id();
        let base = blank_entity(id, Category::Asteroid, pos, radius);
        let e = Entity { collidable: true, removal: true, vel, ..base };
        self.entities.push(e);
        id
    }

    /// The record of a bullet: collidable, removed at the boundary.
    pub open spec fn bullet_entity(id: u64, pos: Vec2, vel: Vec2) -> Entity {
        Entity {
            collidable: true,
            removal: true,
            vel,
            ..blank_entity_spec(id, Category::Bullet, pos, BULLET_RADIUS)
        }
    }

    /// Spawns a bullet with a known position and velocity.
    pub fn spawn_bullet(&mut self, pos: Vec2, vel: Vec2) -> (id: u64)
        requires
            old(self).wf(),
            old(self).next_id < u64::MAX,
            vec_in(pos, POS_LIMIT),
        ensures
            final(self).wf(),
            id == old(self).next_id,
            final(self).entities@ == old(self).entities@.push(Self::bullet_entity(id, pos, vel)),
            final(self).next_id == old(self).next_id + 1,
            final(self).pending == old(self).pending,
            final(self).half_width == old(self).half_width,
            final(self).half_height == old(self).half_height,
    {
        let id = self.alloc_id();
        let base = blank_entity(id, Category::Bullet, pos, BULLET_RADIUS);
        let e = Entity { collidable: true, removal: true, vel, ..base };
        self.entities.push(e);
        id
    }

    /// The record of a saucer: collidable, armed, removed at the
    /// boundary.
    pub open spec fn ufo_entity(id: u64, pos: Vec2, state: UfoState, weapon: Weapon, vel: Vec2, target: Option<u64>) -> Entity {
        Entity {
            collidable: true,
            removal: true,
            vel,
            ufo: Some(state),
            weapon: Some(weapon),
            target,
            ..blank_entity_spec(id, Category::Ufo, pos, UFO_RADIUS)
        }
    }

    /// Spawns a saucer with a known position, state, weapon and
    /// velocity.
    pub fn spawn_ufo(&mut self, pos: Vec2, state: UfoState, weapon: Weapon, vel: Vec2, target: Option<u64>) -> (id: u64)
        requires
            old(self).wf(),
            old(self).next_id < u64::MAX,
            vec_in(pos, ARENA_LIMIT),
            weapon.wf(),
        ensures
            final(self).wf(),
            id == old(self).next_id,
            final(self).entities@ == old(self).entities@.push(
                Self::ufo_entity(id, pos, state, weapon, vel, target)),
            final(self).next_id == old(self).next_id + 1,
            final(self).pending == old(self).pending,
            final(self).half_width == old(self).half_width,
            final(self).half_height == old(self).half_height,
    {
        let id = self.alloc_id();
        let base = blank_entity(id, Category::Ufo, pos, UFO_RADIUS);
        let e = Entity {
            collidable: true,
            removal: true,
            vel,
            ufo: Some(state),
            weapon: Some(weapon),
            target,
            ..base
        };
        self.entities.push(e);
        id
    }

    /// Finds the record index of a live entity.
    pub fn find_live(&self, id: u64) -> (r: Option<usize>)
        ensures
            match r {
                Some(k) => k < self.entities@.len() && self.entities@[k as int].live
                    && self.entities@[k as int].id == id
                    && lookup(self.entities@, id) == Some(self.entities@[k as int]),
                None => lookup(self.entities@, id) is None,
            },
    {
        let ents = &self.entities;
        proof {
            assert(ents@.skip(0) =~= ents@);
        }
        let mut k: usize = 0;
        while k < ents.len()
            invariant
                k <= ents@.len(),
                ents@ == self.entities@,
                lookup(ents@.skip(k as int), id) == lookup(ents@, id),
                forall|t: int| 0 <= t < k ==> !((#[trigger] ents@[t]).live && ents@[t].id == id),
            decreases ents@.len() - k,
        {
            let e = &ents[k];
            proof {
                assert(ents@.skip(k as int)[0] == ents@[k as int]);
                assert(ents@.skip(k as int).drop_first() =~= ents@.skip(k as int + 1));
            }
            if e.live && e.id == id {
                return Some(k);
            }
            k = k + 1;
        }
        proof {
            assert(ents@.skip(ents@.len() as int) =~= Seq::<Entity>::empty());
        }
        None
    }

    /// Reads a live entity's current record.
    pub fn get_entity(&self, id: u64) -> (r: Option<Entity>)
        ensures
            r == lookup(self.entities@, id),
    {
        match self.find_live(id) {
            Some(k) => Some(self.entities[k]),
            None => None,
        }
    }

    /// Snapshots the live, collidable entities of a category for the
    /// detector.
    pub fn colliders_of(&self, cat: Category) -> (out: Vec<Collider>)
        requires
            self.wf(),
        ensures
            out@ == colliders_spec(self.entities@, cat),
            colliders_wf(out@),
    {
        let ents = &self.entities;
        let mut out: Vec<Collider> = Vec::new();
        proof {
            assert(ents@.skip(0) =~= ents@);
            assert(out@ + colliders_spec(ents@, cat) =~= colliders_spec(ents@, cat));
        }
        let mut k: usize = 0;
        while k < ents.len()
            invariant
                k <= ents@.len(),
                ents@ == self.entities@,
                self.wf(),
                out@ + colliders_spec(ents@.skip(k as int), cat) == colliders_spec(ents@, cat),
                colliders_wf(out@),
            decreases ents@.len() - k,
        {
            let e = ents[k];
            proof {
                assert(ents@.skip(k as int)[0] == ents@[k as int]);
                assert(ents@.skip(k as int).drop_first() =~= ents@.skip(k as int + 1));
            }
            let ghost before = out@;
            if e.live && e.collidable && e.category == cat {
                out.push(Collider { id: e.id, pos: e.pos, radius: e.radius });
                proof {
                    assert(e.wf());
                    assert(vec_in(e.pos, pos_bound(e.category)));
                    assert(vec_in(e.pos, POS_LIMIT));
                    assert(out@ =~= before + seq![collider_of(e)]);
                    assert(before + colliders_spec(ents@.skip(k as int), cat)
                        =~= out@ + colliders_spec(ents@.skip(k as int + 1), cat));
                }
            } else {
                proof {
                    assert(colliders_spec(ents@.skip(k as int), cat)
                        =~= colliders_spec(ents@.skip(k as int + 1), cat));
                }
            }
            k = k + 1;
        }
        proof {
            assert(ents@.skip(ents@.len() as int) =~= Seq::<Entity>::empty());
            assert(out@ + colliders_spec(Seq::<Entity>::empty(), cat) =~= out@);
        }
        out
    }

    /// Runs the detector for one registered category pair and returns
    /// this frame's events for its bus.
    pub fn detect_pair(&self, hittable: Category, hurtable: Category) -> (out: Vec<HitEvent>)
        requires
            self.wf(),
        ensures
            out@ == detect_spec(
                colliders_spec(self.entities@, hittable),
                colliders_spec(self.entities@, hurtable),
            ),
    {
        let hs = self.colliders_of(hittable);
        let bs = self.colliders_of(hurtable);
        detect(&hs, &bs)
    }
}

/// What one frame of the ship lifecycle does to a record.  Entering
/// `Spawning` re-attaches the shape, physics, steering, wrap tag and
/// flicker and resets the ship to the center; entering `Alive`
/// re-arms the weapon, restores the collidable tag and visibility and
/// drops the flicker.  Collidable and weapon stay absent throughout
/// `Dead` and `Spawning`.
pub open spec fn ship_pass_entity(e: Entity, dt: u64) -> Entity {
    if e.live && e.ship is Some {
        let t = ship_tick_spec(e.ship.unwrap(), dt);
        let e1 = Entity { ship: Some(t.state), ..e };
        let e2 = if t.enter_spawning {
            Entity {
                pos: Vec2 { x: 0, y: 0 },
                radius: SHIP_RADIUS,
                vel: Vec2 { x: 0, y: 0 },
                facing: Vec2 { x: 100, y: 0 },
                has_shape: true,
                has_thrust: true,
                has_steering: true,
                wrap: true,
                flick: Some(Flick { period: SHIP_FLICK_MS, remaining: SHIP_FLICK_MS }),
                ..e1
            }
        } else {
            e1
        };
        if t.become_alive {
            Entity {
                weapon: Some(Weapon {
                    cooldown: SHIP_WEAPON_PERIOD_MS,
                    period: SHIP_WEAPON_PERIOD_MS,
                    force: SHIP_WEAPON_FORCE,
                    triggered: false,
                    automatic: false,
                }),
                collidable: true,
                flick: None,
                visible: true,
                ..e2
            }
        } else {
            e2
        }
    } else {
        e
    }
}

proof fn lemma_ship_pass_wf(e: Entity, dt: u64)
    requires
        e.wf(),
    ensures
        ship_pass_entity(e, dt).wf(),
        ship_pass_entity(e, dt).id == e.id,
{
}

/// Lifecycle-expiry despawn: a record whose expiration timer runs out
/// this frame is marked dead; otherwise the timer just counts down.
pub open spec fn expiration_pass_entity(e: Entity, dt: u64) -> Entity {
    if e.live && e.expiration is Some {
        let left = sat_sub(e.expiration.unwrap(), dt);
        if left == 0 {
            Entity { live: false, ..e }
        } else {
            Entity { expiration: Some(left), ..e }
        }
    } else {
        e
    }
}

/// One frame of a flicker effect: visibility toggles each time the
/// repeating timer runs out.
pub open spec fn flick_pass_entity(e: Entity, dt: u64) -> Entity {
    if e.live && e.flick is Some {
        let (f2, toggle) = flick_tick_spec(e.flick.unwrap(), dt);
        Entity { flick: Some(f2), visible: if toggle { !e.visible } else { e.visible }, ..e }
    } else {
        e
    }
}

/// Boundary policy for one record: removal-tagged entities fully
/// outside the play rectangle despawn; wrap-tagged ones are mirrored
/// across the edge they left.
pub open spec fn boundary_pass_entity(e: Entity, hw: i64, hh: i64) -> Entity {
    if e.live && e.removal && exits_play_area_spec(e.pos, e.radius, hw, hh) {
        Entity { live: false, ..e }
    } else if e.live && e.wrap {
        Entity {
            pos: Vec2 {
                x: wrap_coord_spec(e.pos.x, e.radius, hw),
                y: wrap_coord_spec(e.pos.y, e.radius, hh),
            },
            ..e
        }
    } else {
        e
    }
}

proof fn lemma_boundary_pass_wf(e: Entity, hw: i64, hh: i64)
    requires
        e.wf(),
        half_extent_ok(hw),
        half_extent_ok(hh),
    ensures
        boundary_pass_entity(e, hw, hh).wf(),
        boundary_pass_entity(e, hw, hh).id == e.id,
{
}

impl World {
    /// Advances every ship's lifecycle by `dt` milliseconds.
    pub fn ship_state_pass(&mut self, dt: u64)
        requires
            old(self).wf(),
        ensures
            final(self).wf(),
            ship_stage_rel(*old(self), *final(self), dt),
    {
        let ghost orig = self.entities@;
        let n = self.entities.len();
        let mut k: usize = 0;
        while k < n
            invariant
                k <= n,
                n == orig.len(),
                self.entities@.len() == orig.len(),
                forall|t: int| 0 <= t < k
                    ==> self.entities@[t] == ship_pass_entity(#[trigger] orig[t], dt),
                forall|t: int| k <= t < orig.len() ==> self.entities@[t] == #[trigger] orig[t],
                self.next_id == old(self).next_id,
                self.pending == old(self).pending,
                self.half_width == old(self).half_width,
                self.half_height == old(self).half_height,
                orig == old(self).entities@,
            decreases n - k,
        {
            let e = self.entities[k];
            if e.live {
                if let Some(s) = e.ship {
                    let t = ship_tick(s, dt);
                    let mut e2 = Entity { ship: Some(t.state), ..e };
                    if t.enter_spawning {
                        e2 = Entity {
                            pos: Vec2 { x: 0, y: 0 },
                            radius: SHIP_RADIUS,
                            vel: Vec2 { x: 0, y: 0 },
                            facing: Vec2 { x: 100, y: 0 },
                            has_shape: true,
                            has_thrust: true,
                            has_steering: true,
                            wrap: true,
                            flick: Some(Flick { period: SHIP_FLICK_MS, remaining: SHIP_FLICK_MS }),
                            ..e2
                        };
                    }
                    if t.become_alive {
                        e2 = Entity {
                            weapon: Some(Weapon {
                                cooldown: SHIP_WEAPON_PERIOD_MS,
                                period: SHIP_WEAPON_PERIOD_MS,
                                force: SHIP_WEAPON_FORCE,
                                triggered: false,
                                automatic: false,
                            }),
                            collidable: true,
                            flick: None,
                            visible: true,
                            ..e2
                        };
                    }
                    self.entities.set(k, e2);
                }
            }
            k = k + 1;
        }
        proof {
            assert forall|t: int| 0 <= t < self.entities@.len()
                implies (#[trigger] self.entities@[t]).wf() by {
                assert(orig[t].wf());
                lemma_ship_pass_wf(orig[t], dt);
            }
            assert forall|i: int, j: int| 0 <= i < j < self.entities@.len()
                implies (#[trigger] self.entities@[i]).id != (#[trigger] self.entities@[j]).id by {
                assert(self.entities@[i].id == orig[i].id);
                assert(self.entities@[j].id == orig[j].id);
            }
            assert forall|t: int| 0 <= t < self.entities@.len()
                implies (#[trigger] self.entities@[t]).id < self.next_id by {
                assert(self.entities@[t].id == orig[t].id);
            }
        }
    }

    /// Counts down expiration timers and despawns what ran out.
    pub fn expiration_pass(&mut self, dt: u64)
        requires
            old(self).wf(),
        ensures
            final(self).wf(),
            expiration_stage_rel(*old(self), *final(self), dt),
    {
        let ghost orig = self.entities@;
        let n = self.entities.len();
        let mut k: usize = 0;
        while k < n
            invariant
                k <= n,
                n == orig.len(),
                self.entities@.len() == orig.len(),
                forall|t: int| 0 <= t < k
                    ==> self.entities@[t] == expiration_pass_entity(#[trigger] orig[t], dt),
                forall|t: int| k <= t < orig.len() ==> self.entities@[t] == #[trigger] orig[t],
                self.next_id == old(self).next_id,
                self.pending == old(self).pending,
                self.half_width == old(self).half_width,
                self.half_height == old(self).half_height,
                orig == old(self).entities@,
            decreases n - k,
        {
            let e = self.entities[k];
            if e.live {
                if let Some(left) = e.expiration {
                    let left2: u64 = if left <= dt { 0 } else { left - dt };
                    if left2 == 0 {
                        self.entities.set(k, Entity { live: false, ..e });
                    } else {
                        self.entities.set(k, Entity { expiration: Some(left2), ..e });
                    }
                }
            }
            k = k + 1;
        }
        proof {
            assert forall|t: int| 0 <= t < self.entities@.len()
                implies (#[trigger] self.entities@[t]).wf() by {
                assert(orig[t].wf());
            }
            assert forall|i: int, j: int| 0 <= i < j < self.entities@.len()
                implies (#[trigger] self.entities@[i]).id != (#[trigger] self.entities@[j]).id by {
                assert(self.entities@[i].id == orig[i].id);
                assert(self.entities@[j].id == orig[j].id);
            }
            assert forall|t: int| 0 <= t < self.entities@.len()
                implies (#[trigger] self.entities@[t]).id < self.next_id by {
                assert(self.entities@[t].id == orig[t].id);
            }
        }
    }

    /// Advances flicker effects and toggles visibility on expiry.
    pub fn flick_pass(&mut self, dt: u64)
        requires
            old(self).wf(),
        ensures
            final(self).wf(),
            flick_stage_rel(*old(self), *final(self), dt),
    {
        let ghost orig = self.entities@;
        let n = self.entities.len();
        let mut k: usize = 0;
        while k < n
            invariant
                k <= n,
                n == orig.len(),
                self.entities@.len() == orig.len(),
                forall|t: int| 0 <= t < k
                    ==> self.entities@[t] == flick_pass_entity(#[trigger] orig[t], dt),
                forall|t: int| k <= t < orig.len() ==> self.entities@[t] == #[trigger] orig[t],
                self.next_id == old(self).next_id,
                self.pending == old(self).pending,
                self.half_width == old(self).half_width,
                self.half_height == old(self).half_height,
                orig == old(self).entities@,
            decreases n - k,
        {
            let e = self.entities[k];
            if e.live {
                if let Some(f) = e.flick {
                    let mut f2 = f;
                    let toggle = crate::state::flick_tick(&mut f2, dt);
                    let vis = if toggle { !e.visible } else { e.visible };
                    self.entities.set(k, Entity { flick: Some(f2), visible: vis, ..e });
                }
            }
            k = k + 1;
        }
        proof {
            assert forall|t: int| 0 <= t < self.entities@.len()
                implies (#[trigger] self.entities@[t]).wf() by {
                assert(orig[t].wf());
            }
            assert forall|i: int, j: int| 0 <= i < j < self.entities@.len()
                implies (#[trigger] self.entities@[i]).id != (#[trigger] self.entities@[j]).id by {
                assert(self.entities@[i].id == orig[i].id);
                assert(self.entities@[j].id == orig[j].id);
            }
            assert forall|t: int| 0 <= t < self.entities@.len()
                implies (#[trigger] self.entities@[t]).id < self.next_id by {
                assert(self.entities@[t].id == orig[t].id);
            }
        }
    }

    /// Applies the boundary policy to every record: removal-tagged
    /// entities fully outside despawn, wrap-tagged ones reappear on
    /// the mirrored edge.
    pub fn boundary_pass(&mut self)
        requires
            old(self).wf(),
        ensures
            final(self).wf(),
            boundary_stage_rel(*old(self), *final(self)),
    {
        let ghost orig = self.entities@;
        let hw = self.half_width;
        let hh = self.half_height;
        let n = self.entities.len();
        let mut k: usize = 0;
        while k < n
            invariant
                k <= n,
                n == orig.len(),
                self.entities@.len() == orig.len(),
                hw == old(self).half_width,
                hh == old(self).half_height,
                half_extent_ok(hw),
                half_extent_ok(hh),
                forall|t: int| 0 <= t < k
                    ==> self.entities@[t] == boundary_pass_entity(#[trigger] orig[t], hw, hh),
                forall|t: int| k <= t < orig.len() ==> self.entities@[t] == #[trigger] orig[t],
                self.next_id == old(self).next_id,
                self.pending == old(self).pending,
                self.half_width == old(self).half_width,
                self.half_height == old(self).half_height,
                orig == old(self).entities@,
                forall|t: int| 0 <= t < orig.len() ==> (#[trigger] orig[t]).wf(),
            decreases n - k,
        {
            let e = self.entities[k];
            proof {
                assert(orig[k as int].wf());
                assert(vec_in(e.pos, POS_LIMIT));
            }
            if e.live && e.removal && exits_play_area(e.pos, e.radius, hw, hh) {
                self.entities.set(k, Entity { live: false, ..e });
            } else if e.live && e.wrap {
                let pos2 = wrap_position(e.pos, e.radius, hw, hh);
                self.entities.set(k, Entity { pos: pos2, ..e });
            }
            k = k + 1;
        }
        proof {
            assert forall|t: int| 0 <= t < self.entities@.len()
                implies (#[trigger] self.entities@[t]).wf() by {
                assert(orig[t].wf());
                lemma_boundary_pass_wf(orig[t], hw, hh);
            }
            assert forall|i: int, j: int| 0 <= i < j < self.entities@.len()
                implies (#[trigger] self.entities@[i]).id != (#[trigger] self.entities@[j]).id by {
                assert(self.entities@[i].id == orig[i].id);
                assert(self.entities@[j].id == orig[j].id);
            }
            assert forall|t: int| 0 <= t < self.entities@.len()
                implies (#[trigger] self.entities@[t]).id < self.next_id by {
                assert(self.entities@[t].id == orig[t].id);
            }
        }
    }

    /// Writes the spatial snapshot the external integrator produced
    /// for one entity.  Returns whether the entity was found live.
    pub fn set_position(&mut self, id: u64, pos: Vec2) -> (found: bool)
        requires
            old(self).wf(),
            vec_in(pos, ARENA_LIMIT),
        ensures
            final(self).wf(),
            found == (lookup(old(self).entities@, id) is Some),
            final(self).entities@.len() == old(self).entities@.len(),
            forall|t: int| 0 <= t < old(self).entities@.len()
                ==> final(self).entities@[t] == (if old(self).entities@[t].live
                        && (#[trigger] old(self).entities@[t]).id == id {
                    Entity { pos, ..old(self).entities@[t] }
                } else {
                    old(self).entities@[t]
                }),
            final(self).next_id == old(self).next_id,
            final(self).pending == old(self).pending,
            final(self).half_width == old(self).half_width,
            final(self).half_height == old(self).half_height,
    {
        let ghost orig = self.entities@;
        match self.find_live(id) {
            Some(k) => {
                let e = self.entities[k];
                self.entities.set(k, Entity { pos, ..e });
                proof {
                    lemma_lookup_index(orig, id);
                    assert forall|t: int| 0 <= t < orig.len()
                        implies self.entities@[t] == (if orig[t].live
                                && (#[trigger] orig[t]).id == id {
                            Entity { pos, ..orig[t] }
                        } else {
                            orig[t]
                        }) by {
                        if t != k {
                            if orig[t].live && orig[t].id == id {
                                assert(orig[t].id != orig[k as int].id);
                                assert(false);
                            }
                        }
                    }
                    assert forall|t: int| 0 <= t < self.entities@.len()
                        implies (#[trigger] self.entities@[t]).wf() by {
                        assert(orig[t].wf());
                    }
                    assert forall|i: int, j: int| 0 <= i < j < self.entities@.len()
                        implies (#[trigger] self.entities@[i]).id
                            != (#[trigger] self.entities@[j]).id by {
                        assert(self.entities@[i].id == orig[i].id);
                        assert(self.entities@[j].id == orig[j].id);
                    }
                    assert forall|t: int| 0 <= t < self.entities@.len()
                        implies (#[trigger] self.entities@[t]).id < self.next_id by {
                        assert(self.entities@[t].id == orig[t].id);
                    }
                }
                true
            },
            None => {
                proof {
                    lemma_lookup_index(orig, id);
                }
                false
            },
        }
    }

    /// Writes the heading the external steering and rotation logic
    /// produced for one entity, as a unit vector scaled by 100.
    /// Returns whether the entity was found live.
    pub fn set_facing(&mut self, id: u64, facing: Vec2) -> (found: bool)
        requires
            old(self).wf(),
            vec_in(facing, 100),
        ensures
            final(self).wf(),
            found == (lookup(old(self).entities@, id) is Some),
            final(self).entities@.len() == old(self).entities@.len(),
            forall|t: int| 0 <= t < old(self).entities@.len()
                ==> final(self).entities@[t] == (if old(self).entities@[t].live
                        && (#[trigger] old(self).entities@[t]).id == id {
                    Entity { facing, ..old(self).entities@[t] }
                } else {
                    old(self).entities@[t]
                }),
            final(self).next_id == old(self).next_id,
            final(self).pending == old(self).pending,
            final(self).half_width == old(self).half_width,
            final(self).half_height == old(self).half_height,
    {
        let ghost orig = self.entities@;
        match self.find_live(id) {
            Some(k) => {
                let e = self.entities[k];
                self.entities.set(k, Entity { facing, ..e });
                proof {
                    lemma_lookup_index(orig, id);
                    assert forall|t: int| 0 <= t < orig.len()
                        implies self.entities@[t] == (if orig[t].live
                                && (#[trigger] orig[t]).id == id {
                            Entity { facing, ..orig[t] }
                        } else {
                            orig[t]
                        }) by {
                        if t != k {
                            if orig[t].live && orig[t].id == id {
                                assert(orig[t].id != orig[k as int].id);
                                assert(false);
                            }
                        }
                    }
                    assert forall|t: int| 0 <= t < self.entities@.len()
                        implies (#[trigger] self.entities@[t]).wf() by {
                        assert(orig[t].wf());
                    }
                    assert forall|i: int, j: int| 0 <= i < j < self.entities@.len()
                        implies (#[trigger] self.entities@[i]).id
                            != (#[trigger] self.entities@[j]).id by {
                        assert(self.entities@[i].id == orig[i].id);
                        assert(self.entities@[j].id == orig[j].id);
                    }
                    assert forall|t: int| 0 <= t < self.entities@.len()
                        implies (#[trigger] self.entities@[t]).id < self.next_id by {
                        assert(self.entities@[t].id == orig[t].id);
                    }
                }
                true
            },
            None => {
                proof {
                    lemma_lookup_index(orig, id);
                }
                false
            },
        }
    }

    /// Feeds one frame of fire input into an entity's weapon trigger.
    /// Returns whether the entity was found live and armed.
    pub fn fire_input(&mut self, id: u64, pressed: bool, just_pressed: bool) -> (found: bool)
        requires
            old(self).wf(),
        ensures
            final(self).wf(),
            final(self).entities@.len() == old(self).entities@.len(),
            forall|t: int| 0 <= t < old(self).entities@.len()
                ==> final(self).entities@[t] == (if old(self).entities@[t].live
                        && (#[trigger] old(self).entities@[t]).id == id
                        && old(self).entities@[t].weapon is Some {
                    Entity {
                        weapon: Some(Weapon {
                            triggered: old(self).entities@[t].weapon.unwrap().triggered
                                || (if old(self).entities@[t].weapon.unwrap().automatic {
                                    pressed
                                } else {
                                    just_pressed
                                }),
                            ..old(self).entities@[t].weapon.unwrap()
                        }),
                        ..old(self).entities@[t]
                    }
                } else {
                    old(self).entities@[t]
                }),
            final(self).next_id == old(self).next_id,
            final(self).pending == old(self).pending,
            final(self).half_width == old(self).half_width,
            final(self).half_height == old(self).half_height,
    {
        let ghost orig = self.entities@;
        match self.find_live(id) {
            Some(k) => {
                let e = self.entities[k];
                if let Some(w) = e.weapon {
                    let mut w2 = w;
                    crate::state::weapon_set_trigger(&mut w2, pressed, just_pressed);
                    self.entities.set(k, Entity { weapon: Some(w2), ..e });
                    proof {
                        assert forall|t: int| 0 <= t < orig.len() && t != k
                            implies !((#[trigger] orig[t]).live && orig[t].id == id) by {
                            if orig[t].live && orig[t].id == id {
                                assert(orig[t].id != orig[k as int].id);
                            }
                        }
                        assert forall|t: int| 0 <= t < self.entities@.len()
                            implies (#[trigger] self.entities@[t]).wf() by {
                            assert(orig[t].wf());
                        }
                        assert forall|i: int, j: int| 0 <= i < j < self.entities@.len()
                            implies (#[trigger] self.entities@[i]).id
                                != (#[trigger] self.entities@[j]).id by {
                            assert(self.entities@[i].id == orig[i].id);
                            assert(self.entities@[j].id == orig[j].id);
                        }
                        assert forall|t: int| 0 <= t < self.entities@.len()
                            implies (#[trigger] self.entities@[t]).id < self.next_id by {
                            assert(self.entities@[t].id == orig[t].id);
                        }
                    }
                    true
                } else {
                    proof {
                        assert forall|t: int| 0 <= t < orig.len() && t != k
                            implies !((#[trigger] orig[t]).live && orig[t].id == id) by {
                            if orig[t].live && orig[t].id == id {
                                assert(orig[t].id != orig[k as int].id);
                            }
                        }
                    }
                    false
                }
            },
            None => {
                proof {
                    lemma_lookup_index(orig, id);
                }
                false
            },
        }
    }
}

/// Identities of the ships currently in the `Alive` state, in record
/// order: the only valid targets for a saucer's weapon.
pub open spec fn alive_ship_ids(ents: Seq<Entity>) -> Seq<u64>
    decreases ents.len(),
{
    if ents.len() == 0 {
        Seq::empty()
    } else {
        let head: Seq<u64> = if ents[0].live && ents[0].ship == Some(ShipState::Alive) {
            seq![ents[0].id]
        } else {
            Seq::empty()
        };
        head + alive_ship_ids(ents.drop_first())
    }
}

/// Identities of every live ship, whatever its state, in record
/// order: the pool a freshly spawned saucer picks its target from.
pub open spec fn all_ship_ids(ents: Seq<Entity>) -> Seq<u64>
    decreases ents.len(),
{
    if ents.len() == 0 {
        Seq::empty()
    } else {
        let head: Seq<u64> = if ents[0].live && ents[0].ship is Some {
            seq![ents[0].id]
        } else {
            Seq::empty()
        };
        head + all_ship_ids(ents.drop_first())
    }
}

/// What one frame does to a saucer: `Alive` counts down into
/// `ChangingDirection` with a fresh 1-2 s timer, veering vertically
/// away from the centerline; `ChangingDirection` counts down into
/// `Alive` with a fresh 4-8 s timer, zeroing vertical velocity.  And
/// every tick, whatever the state, the weapon retargets a random
/// currently-alive ship, or goes untriggered when none is alive.
/// Random durations and target choice leave this a relation, not a
/// function: it holds of every draw.
pub open spec fn ufo_pass_ok(o: Entity, n: Entity, dt: u64, ships: Seq<u64>) -> bool {
    if o.live && o.ufo is Some && o.weapon is Some {
        &&& n == (Entity { ufo: n.ufo, vel: n.vel, weapon: n.weapon, target: n.target, ..o })
        &&& match o.ufo.unwrap() {
            UfoState::Alive { remaining } => {
                let left = sat_sub(remaining, dt);
                if left > 0 {
                    n.ufo == Some(UfoState::Alive { remaining: left }) && n.vel == o.vel
                } else {
                    &&& (exists|d: u64| 1000 <= d < 2000
                        && n.ufo == Some(UfoState::ChangingDirection { remaining: d }))
                    &&& n.vel == (Vec2 { x: o.vel.x, y: if o.pos.y > 0 { 100i64 } else { -100i64 } })
                }
            },
            UfoState::ChangingDirection { remaining } => {
                let left = sat_sub(remaining, dt);
                if left > 0 {
                    n.ufo == Some(UfoState::ChangingDirection { remaining: left }) && n.vel == o.vel
                } else {
                    &&& (exists|d: u64| 4000 <= d < 8000
                        && n.ufo == Some(UfoState::Alive { remaining: d }))
                    &&& n.vel == (Vec2 { x: o.vel.x, y: 0 })
                }
            },
        }
        &&& if ships.len() > 0 {
            &&& (exists|t: u64| ships.contains(t) && n.target == Some(t))
            &&& n.weapon == Some(Weapon { triggered: true, ..o.weapon.unwrap() })
        } else {
            &&& n.target is None
            &&& n.weapon == Some(Weapon { triggered: false, ..o.weapon.unwrap() })
        }
    } else {
        n == o
    }
}

impl World {
    /// Lists the identities of every live ship, whatever its state.
    pub fn all_ships(&self) -> (out: Vec<u64>)
        ensures
            out@ == all_ship_ids(self.entities@),
    {
        let ents = &self.entities;
        let mut out: Vec<u64> = Vec::new();
        proof {
            assert(ents@.skip(0) =~= ents@);
            assert(out@ + all_ship_ids(ents@) =~= all_ship_ids(ents@));
        }
        let mut k: usize = 0;
        while k < ents.len()
            invariant
                k <= ents@.len(),
                ents@ == self.entities@,
                out@ + all_ship_ids(ents@.skip(k as int)) == all_ship_ids(ents@),
            decreases ents@.len() - k,
        {
            let e = ents[k];
            proof {
                assert(ents@.skip(k as int)[0] == ents@[k as int]);
                assert(ents@.skip(k as int).drop_first() =~= ents@.skip(k as int + 1));
            }
            let ghost before = out@;
            if e.live && e.ship.is_some() {
                out.push(e.id);
                proof {
                    assert(out@ =~= before + seq![e.id]);
                    assert(before + all_ship_ids(ents@.skip(k as int))
                        =~= out@ + all_ship_ids(ents@.skip(k as int + 1)));
                }
            } else {
                proof {
                    assert(all_ship_ids(ents@.skip(k as int))
                        =~= all_ship_ids(ents@.skip(k as int + 1)));
                }
            }
            k = k + 1;
        }
        proof {
            assert(ents@.skip(ents@.len() as int) =~= Seq::<Entity>::empty());
            assert(out@ + all_ship_ids(Seq::<Entity>::empty()) =~= out@);
        }
        out
    }

    /// Lists the identities of the ships currently alive.
    pub fn alive_ships(&self) -> (out: Vec<u64>)
        ensures
            out@ == alive_ship_ids(self.entities@),
    {
        let ents = &self.entities;
        let mut out: Vec<u64> = Vec::new();
        proof {
            assert(ents@.skip(0) =~= ents@);
            assert(out@ + alive_ship_ids(ents@) =~= alive_ship_ids(ents@));
        }
        let mut k: usize = 0;
        while k < ents.len()
            invariant
                k <= ents@.len(),
                ents@ == self.entities@,
                out@ + alive_ship_ids(ents@.skip(k as int)) == alive_ship_ids(ents@),
            decreases ents@.len() - k,
        {
            let e = ents[k];
            proof {
                assert(ents@.skip(k as int)[0] == ents@[k as int]);
                assert(ents@.skip(k as int).drop_first() =~= ents@.skip(k as int + 1));
            }
            let ghost before = out@;
            let alive = match e.ship {
                Some(ShipState::Alive) => true,
                _ => false,
            };
            if e.live && alive {
                out.push(e.id);
                proof {
                    assert(out@ =~= before + seq![e.id]);
                    assert(before + alive_ship_ids(ents@.skip(k as int))
                        =~= out@ + alive_ship_ids(ents@.skip(k as int + 1)));
                }
            } else {
                proof {
                    assert(alive_ship_ids(ents@.skip(k as int))
                        =~= alive_ship_ids(ents@.skip(k as int + 1)));
                }
            }
            k = k + 1;
        }
        proof {
            assert(ents@.skip(ents@.len() as int) =~= Seq::<Entity>::empty());
            assert(out@ + alive_ship_ids(Seq::<Entity>::empty()) =~= out@);
        }
        out
    }

    /// Advances every saucer's state machine by `dt` milliseconds and
    /// retargets each saucer's weapon at a random currently-alive
    /// ship, or clears target and trigger when none is alive.
    pub fn ufo_state_pass(&mut self, dt: u64, rng: &mut rand::rngs::SmallRng)
        requires
            old(self).wf(),
        ensures
            final(self).wf(),
            ufo_stage_rel(*old(self), *final(self), dt),
    {
        let ships = self.alive_ships();
        let ghost orig = self.entities@;
        let ghost shipseq = alive_ship_ids(orig);
        let n = self.entities.len();
        let mut k: usize = 0;
        while k < n
            invariant
                k <= n,
                n == orig.len(),
                self.entities@.len() == orig.len(),
                ships@ == shipseq,
                shipseq == alive_ship_ids(orig),
                forall|t: int| 0 <= t < k
                    ==> ufo_pass_ok(#[trigger] orig[t], self.entities@[t], dt, shipseq),
                forall|t: int| k <= t < orig.len() ==> self.entities@[t] == #[trigger] orig[t],
                forall|t: int| 0 <= t < orig.len() ==> (#[trigger] orig[t]).wf(),
                self.next_id == old(self).next_id,
                self.pending == old(self).pending,
                self.half_width == old(self).half_width,
                self.half_height == old(self).half_height,
                orig == old(self).entities@,
            decreases n - k,
        {
            let e = self.entities[k];
            let is_ufo = e.ufo.is_some() && e.weapon.is_some();
            if e.live && is_ufo {
                let mut e2 = e;
                match e.ufo.unwrap() {
                    UfoState::Alive { remaining } => {
                        let left: u64 = if remaining <= dt { 0 } else { remaining - dt };
                        if left > 0 {
                            e2.ufo = Some(UfoState::Alive { remaining: left });
                        } else {
                            let d = crate::rng::range_u64(rng, 1000, 2000);
                            e2.ufo = Some(UfoState::ChangingDirection { remaining: d });
                            e2.vel = Vec2 {
                                x: e.vel.x,
                                y: if e.pos.y > 0 { 100 } else { -100 },
                            };
                        }
                    },
                    UfoState::ChangingDirection { remaining } => {
                        let left: u64 = if remaining <= dt { 0 } else { remaining - dt };
                        if left > 0 {
                            e2.ufo = Some(UfoState::ChangingDirection { remaining: left });
                        } else {
                            let secs = crate::rng::range_u64(rng, 4, 8);
                            let d = secs * 1000;
                            proof {
                                assert(4000 <= d < 8000) by (nonlinear_arith)
                                    requires 4 <= secs < 8, d == secs * 1000;
                            }
                            e2.ufo = Some(UfoState::Alive { remaining: d });
                            e2.vel = Vec2 { x: e.vel.x, y: 0 };
                        }
                    },
                }
                let w = e.weapon.unwrap();
                if ships.len() > 0 {
                    let pick = crate::rng::range_u64(rng, 0, ships.len() as u64);
                    let t = ships[pick as usize];
                    e2.target = Some(t);
                    e2.weapon = Some(Weapon { triggered: true, ..w });
                    proof {
                        assert(shipseq.contains(t)) by {
                            assert(shipseq[pick as int] == t);
                        }
                    }
                } else {
                    e2.target = None;
                    e2.weapon = Some(Weapon { triggered: false, ..w });
                }
                self.entities.set(k, e2);
                proof {
                    assert(ufo_pass_ok(orig[k as int], e2, dt, shipseq));
                }
            }
            k = k + 1;
        }
        proof {
            assert forall|t: int| 0 <= t < self.entities@.len()
                implies (#[trigger] self.entities@[t]).wf() by {
                assert(ufo_pass_ok(orig[t], self.entities@[t], dt, shipseq));
                assert(orig[t].wf());
            }
            assert forall|i: int, j: int| 0 <= i < j < self.entities@.len()
                implies (#[trigger] self.entities@[i]).id != (#[trigger] self.entities@[j]).id by {
                assert(ufo_pass_ok(orig[i], self.entities@[i], dt, shipseq));
                assert(ufo_pass_ok(orig[j], self.entities@[j], dt, shipseq));
                assert(self.entities@[i].id == orig[i].id);
                assert(self.entities@[j].id == orig[j].id);
            }
            assert forall|t: int| 0 <= t < self.entities@.len()
                implies (#[trigger] self.entities@[t]).id < self.next_id by {
                assert(ufo_pass_ok(orig[t], self.entities@[t], dt, shipseq));
                assert(self.entities@[t].id == orig[t].id);
            }
        }
    }
    /// Ticks every weapon's cooldown and fires the armed, ready ones:
    /// each shot spawns one bullet at the shooter's muzzle, aimed at
    /// the weapon's target when that entity still exists, else along
    /// the shooter's heading, with speed set by the weapon's force.
    /// The `j`-th bullet belongs to the `j`-th firing record, in
    /// record order, exactly as `fired_bullet` lays down.
    pub fn weapon_pass(&mut self, dt: u64)
        requires
            old(self).wf(),
            old(self).next_id + old(self).entities@.len() <= u64::MAX,
        ensures
            final(self).wf(),
            weapon_stage_rel(*old(self), *final(self), dt),
    {
        let ghost orig = self.entities@;
        let ghost total = fire_count(orig, dt);
        let ghost fi0 = fire_indexes(orig, dt, 0);
        proof {
            lemma_fire_count_le(orig, dt);
            lemma_fire_indexes_count(orig, dt, 0);
            assert(orig.skip(0) =~= orig);
            assert(fi0.skip(0) =~= fi0);
        }
        // tick every weapon, remembering who fires
        let mut shooters: Vec<usize> = Vec::new();
        let n = self.entities.len();
        let mut k: usize = 0;
        while k < n
            invariant
                k <= n,
                n == orig.len(),
                self.entities@.len() == orig.len(),
                forall|t: int| 0 <= t < k
                    ==> self.entities@[t] == weapon_pass_entity(#[trigger] orig[t], dt),
                forall|t: int| k <= t < orig.len() ==> self.entities@[t] == #[trigger] orig[t],
                shooters@.len() + fire_count(orig.skip(k as int), dt) == total,
                total == fire_count(orig, dt),
                fi0 == fire_indexes(orig, dt, 0),
                fi0.skip(shooters@.len() as int) == fire_indexes(orig, dt, k as int),
                shooters@.len() <= fi0.len(),
                forall|t: int| 0 <= t < shooters@.len()
                    ==> #[trigger] shooters@[t] < orig.len() && shooters@[t] as int == fi0[t]
                        && fires(orig[shooters@[t] as int], dt),
                self.next_id == old(self).next_id,
                self.pending == old(self).pending,
                self.half_width == old(self).half_width,
                self.half_height == old(self).half_height,
                orig == old(self).entities@,
            decreases n - k,
        {
            let e = self.entities[k];
            proof {
                assert(orig.skip(k as int)[0] == orig[k as int]);
                assert(orig.skip(k as int).drop_first() =~= orig.skip(k as int + 1));
            }
            let ghost slen = shooters@.len() as int;
            let mut fired = false;
            if e.live {
                if let Some(w) = e.weapon {
                    let mut w2 = w;
                    fired = crate::state::weapon_tick(&mut w2, dt);
                    self.entities.set(k, Entity { weapon: Some(w2), ..e });
                    if fired {
                        shooters.push(k);
                    }
                }
            }
            proof {
                if fired {
                    assert(fires(orig[k as int], dt));
                    assert(fire_indexes(orig, dt, k as int)
                        == seq![k as int] + fire_indexes(orig, dt, k as int + 1));
                    assert(fi0.skip(slen)[0] == fi0[slen]);
                    assert(fi0[slen] == k as int);
                    assert(fi0.skip(slen).drop_first() =~= fi0.skip(slen + 1));
                    assert((seq![k as int] + fire_indexes(orig, dt, k as int + 1)).drop_first()
                        =~= fire_indexes(orig, dt, k as int + 1));
                    assert(fi0.skip(slen).len() == fi0.len() - slen);
                } else {
                    assert(!fires(orig[k as int], dt));
                    assert(fire_indexes(orig, dt, k as int)
                        =~= fire_indexes(orig, dt, k as int + 1));
                }
            }
            k = k + 1;
        }
        proof {
            assert(orig.skip(orig.len() as int) =~= Seq::<Entity>::empty());
            assert(shooters@.len() == total);
            assert forall|t: int| 0 <= t < self.entities@.len()
                implies (#[trigger] self.entities@[t]).wf() by {
                assert(self.entities@[t] == weapon_pass_entity(orig[t], dt));
                assert(orig[t].wf());
            }
            assert forall|i: int, j: int| 0 <= i < j < self.entities@.len()
                implies (#[trigger] self.entities@[i]).id != (#[trigger] self.entities@[j]).id by {
                assert(self.entities@[i] == weapon_pass_entity(orig[i], dt));
                assert(self.entities@[j] == weapon_pass_entity(orig[j], dt));
            }
            assert forall|t: int| 0 <= t < self.entities@.len()
                implies (#[trigger] self.entities@[t]).id < self.next_id by {
                assert(self.entities@[t] == weapon_pass_entity(orig[t], dt));
            }
        }
        let ghost tseq = ticked_entities(orig, dt);
        proof {
            assert forall|t: int| 0 <= t < orig.len()
                implies self.entities@[t] == #[trigger] tseq[t] by {
                assert(tseq[t] == weapon_pass_entity(orig[t], dt));
            }
            assert(self.entities@ =~= tseq);
        }
        // aim every shot against the ticked records, without touching
        // the world yet
        let count = shooters.len();
        let mut muzzles: Vec<(Vec2, Vec2)> = Vec::new();
        let mut j: usize = 0;
        while j < count
            invariant
                j <= count,
                count == total,
                self.entities@ == tseq,
                tseq == ticked_entities(orig, dt),
                orig == old(self).entities@,
                fi0 == fire_indexes(orig, dt, 0),
                fi0.len() == total,
                forall|t: int| 0 <= t < shooters@.len()
                    ==> #[trigger] shooters@[t] < orig.len() && shooters@[t] as int == fi0[t]
                        && fires(orig[shooters@[t] as int], dt),
                shooters@.len() == total,
                forall|t: int| 0 <= t < orig.len()
                    ==> #[trigger] tseq[t] == weapon_pass_entity(orig[t], dt),
                forall|t: int| 0 <= t < tseq.len() ==> (#[trigger] tseq[t]).wf(),
                muzzles@.len() == j,
                forall|t: int| 0 <= t < j
                    ==> #[trigger] muzzles@[t] == muzzle_spec(tseq, tseq[fi0[t]]),
                forall|t: int| 0 <= t < j ==> vec_in((#[trigger] muzzles@[t]).0, POS_LIMIT),
            decreases count - j,
        {
            let s_idx = shooters[j];
            let e = self.entities[s_idx];
            proof {
                assert(e == tseq[s_idx as int]);
                assert(e == weapon_pass_entity(orig[s_idx as int], dt));
                assert(orig[s_idx as int].wf());
                assert(e.weapon is Some);
                assert(e.category is Ship || e.category is Ufo);
                assert(vec_in(e.pos, ARENA_LIMIT));
            }
            let w = e.weapon.unwrap();
            let m1: u64 = e.radius + 10;
            let m2: u64 = w.force;
            // aim: at the target while it exists, else along the heading
            let mut aim: Option<Vec2> = None;
            match e.target {
                Some(tid) => {
                    match self.find_live(tid) {
                        Some(ti) => {
                            let tp = self.entities[ti].pos;
                            proof {
                                assert(self.entities@[ti as int].wf());
                                assert(vec_in(tp, POS_LIMIT));
                                assert(lookup(tseq, tid) == Some(tseq[ti as int]));
                            }
                            aim = Some(tp);
                        },
                        None => {},
                    }
                },
                None => {},
            }
            let (bpos, bvel): (Vec2, Vec2) = match aim {
                Some(tp) => {
                    let dx: i64 = tp.x - e.pos.x;
                    let dy: i64 = tp.y - e.pos.y;
                    let n2: i64 = crate::geom::dist2_exec(tp, e.pos);
                    let len: u64 = crate::geom::isqrt(n2 as u64);
                    if len == 0 {
                        (e.pos, Vec2 { x: 0, y: 0 })
                    } else {
                        proof {
                            assert(dx * dx <= n2 && dy * dy <= n2) by (nonlinear_arith)
                                requires n2 == dx * dx + dy * dy;
                            crate::geom::lemma_component_below_root(
                                dx as int, len as int, n2 as int);
                            crate::geom::lemma_component_below_root(
                                dy as int, len as int, n2 as int);
                        }
                        let ox = crate::geom::scale_frac(dx, m1, len);
                        let oy = crate::geom::scale_frac(dy, m1, len);
                        let vx = crate::geom::scale_frac(dx, m2, len);
                        let vy = crate::geom::scale_frac(dy, m2, len);
                        (Vec2 { x: e.pos.x + ox, y: e.pos.y + oy }, Vec2 { x: vx, y: vy })
                    }
                },
                None => {
                    let ox = crate::geom::scale_frac(e.facing.x, m1, 100);
                    let oy = crate::geom::scale_frac(e.facing.y, m1, 100);
                    let vx = crate::geom::scale_frac(e.facing.x, m2, 100);
                    let vy = crate::geom::scale_frac(e.facing.y, m2, 100);
                    (Vec2 { x: e.pos.x + ox, y: e.pos.y + oy }, Vec2 { x: vx, y: vy })
                },
            };
            proof {
                assert((bpos, bvel) == muzzle_spec(tseq, e));
                assert(vec_in(bpos, POS_LIMIT));
            }
            muzzles.push((bpos, bvel));
            j = j + 1;
        }
        // spawn one bullet per shot, in firing order
        let mut q: usize = 0;
        while q < count
            invariant
                q <= count,
                count == total,
                total == fire_count(orig, dt),
                orig == old(self).entities@,
                tseq == ticked_entities(orig, dt),
                fi0 == fire_indexes(orig, dt, 0),
                fi0.len() == total,
                muzzles@.len() == total,
                forall|t: int| 0 <= t < total
                    ==> #[trigger] muzzles@[t] == muzzle_spec(tseq, tseq[fi0[t]]),
                forall|t: int| 0 <= t < total ==> vec_in((#[trigger] muzzles@[t]).0, POS_LIMIT),
                old(self).next_id + total <= u64::MAX,
                self.entities@.len() == orig.len() + q,
                forall|t: int| 0 <= t < orig.len() ==> self.entities@[t] == #[trigger] tseq[t],
                forall|t: int| 0 <= t < q
                    ==> #[trigger] self.entities@[orig.len() + t] == Self::bullet_entity(
                        (old(self).next_id + t) as u64,
                        muzzles@[t].0,
                        muzzles@[t].1,
                    ),
                forall|t: int| 0 <= t < self.entities@.len()
                    ==> (#[trigger] self.entities@[t]).wf(),
                forall|a: int, b: int| 0 <= a < b < self.entities@.len()
                    ==> (#[trigger] self.entities@[a]).id != (#[trigger] self.entities@[b]).id,
                forall|t: int| 0 <= t < self.entities@.len()
                    ==> (#[trigger] self.entities@[t]).id < self.next_id,
                self.next_id == old(self).next_id + q,
                self.pending == old(self).pending,
                self.half_width == old(self).half_width,
                self.half_height == old(self).half_height,
                half_extent_ok(self.half_width),
                half_extent_ok(self.half_height),
            decreases count - q,
        {
            let mz = muzzles[q];
            let id = self.next_id;
            self.next_id = self.next_id + 1;
            let base = blank_entity(id, Category::Bullet, mz.0, BULLET_RADIUS);
            let b = Entity { collidable: true, removal: true, vel: mz.1, ..base };
            self.entities.push(b);
            proof {
                assert(b == Self::bullet_entity(id, mz.0, mz.1));
            }
            q = q + 1;
        }
        proof {
            assert forall|j2: int| 0 <= j2 < fire_count(old(self).entities@, dt)
                implies #[trigger] self.entities@[old(self).entities@.len() + j2]
                    == fired_bullet(old(self).entities@, dt, old(self).next_id, j2) by {
                assert(self.entities@[orig.len() + j2] == Self::bullet_entity(
                    (old(self).next_id + j2) as u64,
                    muzzles@[j2].0,
                    muzzles@[j2].1,
                ));
                assert(muzzles@[j2] == muzzle_spec(tseq, tseq[fi0[j2]]));
            }
        }
    }
}

/// What one frame does to a record's weapon: the cooldown ticks, and
/// a shot leaving clears the trigger and restarts it.
pub open spec fn weapon_pass_entity(e: Entity, dt: u64) -> Entity {
    if e.live && e.weapon is Some {
        Entity { weapon: Some(crate::state::weapon_tick_spec(e.weapon.unwrap(), dt).0), ..e }
    } else {
        e
    }
}

/// Whether a record's weapon fires a shot this frame.
pub open spec fn fires(e: Entity, dt: u64) -> bool {
    e.live && e.weapon is Some && crate::state::weapon_tick_spec(e.weapon.unwrap(), dt).1
}

/// How many shots leave this frame, in record order.
pub open spec fn fire_count(ents: Seq<Entity>, dt: u64) -> nat
    decreases ents.len(),
{
    if ents.len() == 0 {
        0
    } else {
        (if fires(ents[0], dt) { 1nat } else { 0nat }) + fire_count(ents.drop_first(), dt)
    }
}

proof fn lemma_fire_count_le(ents: Seq<Entity>, dt: u64)
    ensures
        fire_count(ents, dt) <= ents.len(),
    decreases ents.len(),
{
    if ents.len() > 0 {
        lemma_fire_count_le(ents.drop_first(), dt);
    }
}

/// The record vector with every weapon ticked by `dt`.
pub open spec fn ticked_entities(ents: Seq<Entity>, dt: u64) -> Seq<Entity> {
    Seq::new(ents.len(), |t: int| weapon_pass_entity(ents[t], dt))
}

/// The indexes of the records whose weapons fire this frame, from
/// `from` on, in record order.
pub open spec fn fire_indexes(ents: Seq<Entity>, dt: u64, from: int) -> Seq<int>
    decreases ents.len() - from,
{
    if from < 0 || from >= ents.len() {
        Seq::empty()
    } else {
        let head: Seq<int> = if fires(ents[from], dt) {
            seq![from]
        } else {
            Seq::empty()
        };
        head + fire_indexes(ents, dt, from + 1)
    }
}

proof fn lemma_fire_indexes_count(ents: Seq<Entity>, dt: u64, from: int)
    requires
        0 <= from <= ents.len(),
    ensures
        fire_indexes(ents, dt, from).len() == fire_count(ents.skip(from), dt),
    decreases ents.len() - from,
{
    if from == ents.len() {
        assert(ents.skip(from) =~= Seq::<Entity>::empty());
    } else {
        lemma_fire_indexes_count(ents, dt, from + 1);
        assert(ents.skip(from)[0] == ents[from]);
        assert(ents.skip(from).drop_first() =~= ents.skip(from + 1));
    }
}

/// Where and how fast a shooter's bullet leaves: at the target's
/// current position while that entity still exists, else along the
/// shooter's heading; the muzzle sits the shooter's radius plus ten
/// units out, and the speed is the weapon's force, both rescaled by
/// the aim displacement's own length.  A zero displacement gives a
/// resting bullet at the shooter's center.
pub open spec fn muzzle_spec(ents: Seq<Entity>, shooter: Entity) -> (Vec2, Vec2)
    recommends
        shooter.weapon is Some,
{
    let m1 = (shooter.radius + 10) as int;
    let force = shooter.weapon.unwrap().force as int;
    let aim: Option<Vec2> = match shooter.target {
        Some(tid) => match lookup(ents, tid) {
            Some(t) => Some(t.pos),
            None => None,
        },
        None => None,
    };
    match aim {
        Some(tp) => {
            let len = crate::geom::isqrt_spec(crate::geom::dist2(tp, shooter.pos));
            if len == 0 {
                (shooter.pos, Vec2 { x: 0, y: 0 })
            } else {
                (
                    Vec2 {
                        x: (shooter.pos.x
                            + crate::geom::scale_frac_spec(tp.x - shooter.pos.x, m1, len)) as i64,
                        y: (shooter.pos.y
                            + crate::geom::scale_frac_spec(tp.y - shooter.pos.y, m1, len)) as i64,
                    },
                    Vec2 {
                        x: crate::geom::scale_frac_spec(tp.x - shooter.pos.x, force, len) as i64,
                        y: crate::geom::scale_frac_spec(tp.y - shooter.pos.y, force, len) as i64,
                    },
                )
            }
        },
        None => (
            Vec2 {
                x: (shooter.pos.x
                    + crate::geom::scale_frac_spec(shooter.facing.x as int, m1, 100)) as i64,
                y: (shooter.pos.y
                    + crate::geom::scale_frac_spec(shooter.facing.y as int, m1, 100)) as i64,
            },
            Vec2 {
                x: crate::geom::scale_frac_spec(shooter.facing.x as int, force, 100) as i64,
                y: crate::geom::scale_frac_spec(shooter.facing.y as int, force, 100) as i64,
            },
        ),
    }
}

/// The `j`-th bullet a frame's weapon pass appends: shot by the
/// `j`-th firing record in record order, aimed against the ticked
/// record vector, under the `j`-th fresh identity.
pub open spec fn fired_bullet(pre: Seq<Entity>, dt: u64, base_id: u64, j: int) -> Entity {
    let ticked = ticked_entities(pre, dt);
    let s = fire_indexes(pre, dt, 0)[j];
    let mz = muzzle_spec(ticked, ticked[s]);
    World::bullet_entity((base_id + j) as u64, mz.0, mz.1)
}

/// What entering `Dead` strips from a ship: the collidable tag, the
/// weapon, thrust, steering and the visual shape.  The record itself
/// stays for the respawn.
pub open spec fn dead_ship_entity(e: Entity) -> Entity {
    Entity {
        ship: Some(ShipState::Dead { remaining: crate::state::DEAD_MS }),
        collidable: false,
        weapon: None,
        has_thrust: false,
        has_steering: false,
        has_shape: false,
        ..e
    }
}

/// What applying a reaction does to one existing record: a despawned
/// identity is marked dead, a ship named in the death list enters
/// `Dead` stripped, and everything else is untouched.  Despawn wins
/// over death for an identity in both lists.
pub open spec fn apply_entity(e: Entity, despawns: Seq<u64>, deaths: Seq<u64>) -> Entity {
    if e.live && despawns.contains(e.id) {
        Entity { live: false, ..e }
    } else if e.live && e.ship is Some && deaths.contains(e.id) {
        dead_ship_entity(e)
    } else {
        e
    }
}

/// The record one explosion particle spawns: a flickering, expiring
/// point with no collision role.
pub open spec fn particle_entity(id: u64, p: crate::react::Particle) -> Entity {
    Entity {
        vel: p.vel,
        flick: Some(Flick { period: p.flick_ms, remaining: p.flick_ms }),
        expiration: Some(p.expire_ms),
        ..blank_entity_spec(id, Category::Explosion, p.pos, 1)
    }
}

proof fn lemma_apply_entity_wf(e: Entity, despawns: Seq<u64>, deaths: Seq<u64>)
    requires
        e.wf(),
    ensures
        apply_entity(e, despawns, deaths).wf(),
        apply_entity(e, despawns, deaths).id == e.id,
{
}

impl World {
    /// Applies a reactor's deferred commands in one pass: marks the
    /// despawned records dead, puts the named ships into `Dead`
    /// stripped of their components, queues the asteroid spawn
    /// requests for the generation phase, and spawns one explosion
    /// record per particle under fresh identities.
    pub fn apply(&mut self, r: &crate::react::Reaction)
        requires
            old(self).wf(),
            r.wf(),
            old(self).next_id + r.particles@.len() <= u64::MAX,
        ensures
            final(self).wf(),
            apply_rel(*old(self), *final(self), *r),
    {
        let ghost orig = self.entities@;
        let n = self.entities.len();
        let mut k: usize = 0;
        while k < n
            invariant
                k <= n,
                n == orig.len(),
                self.entities@.len() == orig.len(),
                forall|t: int| 0 <= t < k ==> self.entities@[t]
                    == apply_entity(#[trigger] orig[t], r.despawns@, r.ship_deaths@),
                forall|t: int| k <= t < orig.len() ==> self.entities@[t] == #[trigger] orig[t],
                self.next_id == old(self).next_id,
                self.pending == old(self).pending,
                self.half_width == old(self).half_width,
                self.half_height == old(self).half_height,
                orig == old(self).entities@,
            decreases n - k,
        {
            let e = self.entities[k];
            if e.live && crate::react::contains_id(&r.despawns, e.id) {
                self.entities.set(k, Entity { live: false, ..e });
            } else if e.live && e.ship.is_some() && crate::react::contains_id(&r.ship_deaths, e.id) {
                self.entities.set(k, Entity {
                    ship: Some(ShipState::Dead { remaining: crate::state::DEAD_MS }),
                    collidable: false,
                    weapon: None,
                    has_thrust: false,
                    has_steering: false,
                    has_shape: false,
                    ..e
                });
            }
            k = k + 1;
        }
        let mut j: usize = 0;
        let pcount = r.particles.len();
        while j < pcount
            invariant
                j <= pcount,
                pcount == r.particles@.len(),
                old(self).next_id + r.particles@.len() <= u64::MAX,
                r.wf(),
                orig == old(self).entities@,
                self.entities@.len() == orig.len() + j,
                forall|t: int| 0 <= t < orig.len() ==> self.entities@[t]
                    == apply_entity(#[trigger] orig[t], r.despawns@, r.ship_deaths@),
                forall|t: int| 0 <= t < j
                    ==> self.entities@[orig.len() + t]
                        == particle_entity((old(self).next_id + t) as u64, #[trigger] r.particles@[t]),
                self.next_id == old(self).next_id + j,
                self.pending == old(self).pending,
                self.half_width == old(self).half_width,
                self.half_height == old(self).half_height,
            decreases pcount - j,
        {
            let p = r.particles[j];
            let id = self.next_id;
            self.next_id = self.next_id + 1;
            let base = blank_entity(id, Category::Explosion, p.pos, 1);
            self.entities.push(Entity {
                vel: p.vel,
                flick: Some(Flick { period: p.flick_ms, remaining: p.flick_ms }),
                expiration: Some(p.expire_ms),
                ..base
            });
            j = j + 1;
        }
        let mut q: usize = 0;
        let scount = r.spawns.len();
        proof {
            assert(self.pending@ + r.spawns@.take(0) =~= self.pending@);
        }
        while q < scount
            invariant
                q <= scount,
                scount == r.spawns@.len(),
                self.pending@ == old(self).pending@ + r.spawns@.take(q as int),
                self.entities@.len() == orig.len() + r.particles@.len(),
                orig == old(self).entities@,
                forall|t: int| 0 <= t < orig.len() ==> self.entities@[t]
                    == apply_entity(#[trigger] orig[t], r.despawns@, r.ship_deaths@),
                forall|t: int| 0 <= t < r.particles@.len()
                    ==> self.entities@[orig.len() + t]
                        == particle_entity((old(self).next_id + t) as u64, #[trigger] r.particles@[t]),
                self.next_id == old(self).next_id + r.particles@.len(),
                self.half_width == old(self).half_width,
                self.half_height == old(self).half_height,
            decreases scount - q,
        {
            let s = r.spawns[q];
            let ghost pbefore = self.pending@;
            self.pending.push(s);
            proof {
                assert(r.spawns@.take(q as int + 1) =~= r.spawns@.take(q as int).push(r.spawns@[q as int]));
                assert(self.pending@ =~= pbefore.push(r.spawns@[q as int]));
                assert(old(self).pending@ + r.spawns@.take(q as int + 1)
                    =~= (old(self).pending@ + r.spawns@.take(q as int)).push(r.spawns@[q as int]));
            }
            q = q + 1;
        }
        proof {
            assert(r.spawns@.take(r.spawns@.len() as int) =~= r.spawns@);
            let ents = self.entities@;
            let olen = orig.len() as int;
            let pn = r.particles@.len() as int;
            assert forall|t: int| 0 <= t < ents.len()
                implies (#[trigger] ents[t]).wf() by {
                if t < olen {
                    lemma_apply_entity_wf(orig[t], r.despawns@, r.ship_deaths@);
                    assert(orig[t].wf());
                } else {
                    assert(ents[t] == particle_entity(
                        (old(self).next_id + (t - olen)) as u64, r.particles@[t - olen]));
                    assert(vec_in(r.particles@[t - olen].pos, POS_LIMIT));
                }
            }
            assert forall|t: int| 0 <= t < ents.len()
                implies (#[trigger] ents[t]).id < self.next_id by {
                if t < olen {
                    lemma_apply_entity_wf(orig[t], r.despawns@, r.ship_deaths@);
                    assert(orig[t].id < old(self).next_id);
                } else {
                    assert(ents[t] == particle_entity(
                        (old(self).next_id + (t - olen)) as u64, r.particles@[t - olen]));
                }
            }
            assert forall|a: int, b: int| 0 <= a < b < ents.len()
                implies (#[trigger] ents[a]).id != (#[trigger] ents[b]).id by {
                if a < olen {
                    lemma_apply_entity_wf(orig[a], r.despawns@, r.ship_deaths@);
                }
                if b < olen {
                    lemma_apply_entity_wf(orig[b], r.despawns@, r.ship_deaths@);
                    assert(orig[a].id != orig[b].id);
                } else {
                    assert(ents[b] == particle_entity(
                        (old(self).next_id + (b - olen)) as u64, r.particles@[b - olen]));
                    if a < olen {
                        assert(orig[a].id < old(self).next_id);
                    } else {
                        assert(ents[a] == particle_entity(
                            (old(self).next_id + (a - olen)) as u64, r.particles@[a - olen]));
                    }
                }
            }
            assert forall|t: int| 0 <= t < self.pending@.len()
                implies (#[trigger] self.pending@[t]).wf() by {
                if t < old(self).pending@.len() {
                    assert(self.pending@[t] == old(self).pending@[t]);
                } else {
                    assert(self.pending@[t] == r.spawns@[t - old(self).pending@.len()]);
                }
            }
        }
    }
}

/// What the weapon pass does to a world: every weapon ticked in
/// place, one bullet appended per firing record in record order, each
/// exactly as `fired_bullet` lays down, under consecutive fresh
/// identities.
pub open spec fn weapon_stage_rel(pre: World, post: World, dt: u64) -> bool {
    &&& post.entities@.len() == pre.entities@.len() + fire_count(pre.entities@, dt)
    &&& forall|t: int| 0 <= t < pre.entities@.len()
        ==> post.entities@[t] == weapon_pass_entity(#[trigger] pre.entities@[t], dt)
    &&& forall|j: int| 0 <= j < fire_count(pre.entities@, dt)
        ==> #[trigger] post.entities@[pre.entities@.len() + j]
            == fired_bullet(pre.entities@, dt, pre.next_id, j)
    &&& post.next_id == pre.next_id + fire_count(pre.entities@, dt)
    &&& post.pending == pre.pending
    &&& post.half_width == pre.half_width
    &&& post.half_height == pre.half_height
}

/// What the ship lifecycle pass does to a world: every record mapped
/// through `ship_pass_entity`, nothing else touched.
pub open spec fn ship_stage_rel(pre: World, post: World, dt: u64) -> bool {
    &&& post.entities@.len() == pre.entities@.len()
    &&& forall|t: int| 0 <= t < pre.entities@.len()
        ==> post.entities@[t] == ship_pass_entity(#[trigger] pre.entities@[t], dt)
    &&& post.next_id == pre.next_id
    &&& post.pending == pre.pending
    &&& post.half_width == pre.half_width
    &&& post.half_height == pre.half_height
}

/// What the saucer pass does to a world: every record related to its
/// old self by `ufo_pass_ok` against the ships alive beforehand.
pub open spec fn ufo_stage_rel(pre: World, post: World, dt: u64) -> bool {
    &&& post.entities@.len() == pre.entities@.len()
    &&& forall|t: int| 0 <= t < pre.entities@.len() ==> ufo_pass_ok(
        #[trigger] pre.entities@[t],
        post.entities@[t],
        dt,
        alive_ship_ids(pre.entities@),
    )
    &&& post.next_id == pre.next_id
    &&& post.pending == pre.pending
    &&& post.half_width == pre.half_width
    &&& post.half_height == pre.half_height
}

/// What applying one reaction does to a world: despawns and ship
/// deaths folded into the records, spawn requests queued, one
/// explosion record per particle under consecutive fresh identities.
pub open spec fn apply_rel(pre: World, post: World, r: Reaction) -> bool {
    &&& post.entities@.len() == pre.entities@.len() + r.particles@.len()
    &&& forall|k: int| 0 <= k < pre.entities@.len()
        ==> post.entities@[k] == apply_entity(
            #[trigger] pre.entities@[k], r.despawns@, r.ship_deaths@)
    &&& forall|j: int| 0 <= j < r.particles@.len()
        ==> post.entities@[pre.entities@.len() + j]
            == particle_entity((pre.next_id + j) as u64, #[trigger] r.particles@[j])
    &&& post.next_id == pre.next_id + r.particles@.len()
    &&& post.pending@ == pre.pending@ + r.spawns@
    &&& post.half_width == pre.half_width
    &&& post.half_height == pre.half_height
}

/// What the expiration pass does to a world.
pub open spec fn expiration_stage_rel(pre: World, post: World, dt: u64) -> bool {
    &&& post.entities@.len() == pre.entities@.len()
    &&& forall|t: int| 0 <= t < pre.entities@.len()
        ==> post.entities@[t] == expiration_pass_entity(#[trigger] pre.entities@[t], dt)
    &&& post.next_id == pre.next_id
    &&& post.pending == pre.pending
    &&& post.half_width == pre.half_width
    &&& post.half_height == pre.half_height
}

/// What the flicker pass does to a world.
pub open spec fn flick_stage_rel(pre: World, post: World, dt: u64) -> bool {
    &&& post.entities@.len() == pre.entities@.len()
    &&& forall|t: int| 0 <= t < pre.entities@.len()
        ==> post.entities@[t] == flick_pass_entity(#[trigger] pre.entities@[t], dt)
    &&& post.next_id == pre.next_id
    &&& post.pending == pre.pending
    &&& post.half_width == pre.half_width
    &&& post.half_height == pre.half_height
}

/// What the boundary pass does to a world.
pub open spec fn boundary_stage_rel(pre: World, post: World) -> bool {
    &&& post.entities@.len() == pre.entities@.len()
    &&& forall|t: int| 0 <= t < pre.entities@.len()
        ==> post.entities@[t] == boundary_pass_entity(
            #[trigger] pre.entities@[t], pre.half_width, pre.half_height)
    &&& post.next_id == pre.next_id
    &&& post.pending == pre.pending
    &&& post.half_width == pre.half_width
    &&& post.half_height == pre.half_height
}

/// This frame's detector output for one registered category pair.
pub open spec fn frame_events(w: World, hittable: Category, hurtable: Category) -> Seq<HitEvent> {
    detect_spec(
        colliders_spec(w.entities@, hittable),
        colliders_spec(w.entities@, hurtable),
    )
}

/// The whole frame, stage by stage: the weapon pass (skipped only
/// when the identity counter lacks headroom), the two lifecycle
/// passes, the three reactors run against the world the detector saw
/// with exactly its events, their reactions applied deferred in
/// order (each skipped only without headroom), the queued asteroid
/// spawns generated within the frame, expiry, flicker, and the
/// boundary policy last.
pub open spec fn frame_stages(
    w0: World,
    w1: World,
    w2: World,
    w3: World,
    r1: Reaction,
    w4: World,
    r2: Reaction,
    w5: World,
    r3: Reaction,
    w6: World,
    w7: World,
    visuals: Seq<crate::spawn::AsteroidVisual>,
    w8: World,
    w9: World,
    post: World,
    dt: u64,
) -> bool {
    &&& if w0.next_id + w0.entities@.len() <= u64::MAX {
        weapon_stage_rel(w0, w1, dt)
    } else {
        w1 == w0
    }
    &&& ship_stage_rel(w1, w2, dt)
    &&& ufo_stage_rel(w2, w3, dt)
    &&& crate::react::ba_reaction_ok(
        r1, frame_events(w3, Category::Bullet, Category::Asteroid), w3.entities@)
    &&& crate::react::ship_reaction_ok(
        r2,
        frame_events(w3, Category::Asteroid, Category::Ship),
        frame_events(w3, Category::Bullet, Category::Ship),
        frame_events(w3, Category::Ufo, Category::Ship),
        w3.entities@,
    )
    &&& crate::react::ufo_reaction_ok(
        r3,
        frame_events(w3, Category::Bullet, Category::Ufo),
        frame_events(w3, Category::Asteroid, Category::Ufo),
        w3.entities@,
    )
    &&& if w3.next_id + r1.particles@.len() <= u64::MAX {
        apply_rel(w3, w4, r1)
    } else {
        w4 == w3
    }
    &&& if w4.next_id + r2.particles@.len() <= u64::MAX {
        apply_rel(w4, w5, r2)
    } else {
        w5 == w4
    }
    &&& if w5.next_id + r3.particles@.len() <= u64::MAX {
        apply_rel(w5, w6, r3)
    } else {
        w6 == w5
    }
    &&& if w6.next_id + w6.pending@.len() <= u64::MAX {
        crate::spawn::gen_rel(w6, w7, visuals)
    } else {
        w7 == w6 && visuals.len() == 0
    }
    &&& expiration_stage_rel(w7, w8, dt)
    &&& flick_stage_rel(w8, w9, dt)
    &&& boundary_stage_rel(w9, post)
}

impl World {
    /// One frame of the core, in the fixed order the design demands:
    /// weapons fire, lifecycles tick, the detector runs for every
    /// registered category pair, each pair's bus is drained exactly
    /// once by its one reactor, the accumulated reactions are applied
    /// in one deferred pass, queued asteroid spawns are generated
    /// within the same frame, expirations and flickers tick, and the
    /// boundary policy runs last.  Returns the outlines of the
    /// asteroids generated this frame, for the renderer.
    ///
    /// When the identity counter would run out, the step skips the
    /// affected spawns rather than reuse an identity.
    #[verifier::rlimit(100)]
    pub fn step(&mut self, dt: u64, rng: &mut rand::rngs::SmallRng) -> (visuals: Vec<crate::spawn::AsteroidVisual>)
        requires
            old(self).wf(),
        ensures
            final(self).wf(),
            final(self).half_width == old(self).half_width,
            final(self).half_height == old(self).half_height,
            // records are marked dead, never removed, so stale
            // references miss softly instead of aliasing
            final(self).entities@.len() >= old(self).entities@.len(),
            // identities are never reused
            final(self).next_id >= old(self).next_id,
            // the frame is exactly the composition of the staged
            // passes, for some run of the three reactors on this
            // frame's detected events
            exists|w1: World, w2: World, w3: World, r1: Reaction, w4: World, r2: Reaction,
                w5: World, r3: Reaction, w6: World, w7: World, w8: World, w9: World|
                #[trigger] frame_stages(
                    *old(self), w1, w2, w3, r1, w4, r2, w5, r3, w6, w7, visuals@, w8, w9,
                    *final(self), dt,
                ),
    {
        // weapons tick and fire
        if self.next_id <= u64::MAX - (self.entities.len() as u64) {
            self.weapon_pass(dt);
        }
        let ghost w1 = *self;
        // lifecycle state machines
        self.ship_state_pass(dt);
        let ghost w2 = *self;
        self.ufo_state_pass(dt, rng);
        let ghost w3 = *self;
        // detection: one bus per registered category pair, each
        // drained exactly once by its one reactor below
        let mut bus_ba = crate::detect::HitBus::new();
        let mut bus_bu = crate::detect::HitBus::new();
        let mut bus_bs = crate::detect::HitBus::new();
        let mut bus_as = crate::detect::HitBus::new();
        let mut bus_au = crate::detect::HitBus::new();
        let mut bus_us = crate::detect::HitBus::new();
        bus_ba.publish(self.detect_pair(Category::Bullet, Category::Asteroid));
        bus_bu.publish(self.detect_pair(Category::Bullet, Category::Ufo));
        bus_bs.publish(self.detect_pair(Category::Bullet, Category::Ship));
        bus_as.publish(self.detect_pair(Category::Asteroid, Category::Ship));
        bus_au.publish(self.detect_pair(Category::Asteroid, Category::Ufo));
        bus_us.publish(self.detect_pair(Category::Ufo, Category::Ship));
        let ev_ba = bus_ba.drain();
        let ev_bu = bus_bu.drain();
        let ev_bs = bus_bs.drain();
        let ev_as = bus_as.drain();
        let ev_au = bus_au.drain();
        let ev_us = bus_us.drain();
        // reactions, accumulated against the frozen frame
        let r_ast = self.react_bullet_asteroid(&ev_ba, rng);
        let r_ship = self.react_ship_hits(&ev_as, &ev_bs, &ev_us, rng);
        let r_ufo = self.react_ufo_hits(&ev_bu, &ev_au, rng);
        let ghost g1 = r_ast;
        let ghost g2 = r_ship;
        let ghost g3 = r_ufo;
        // deferred application
        if self.next_id <= u64::MAX - (r_ast.particles.len() as u64) {
            self.apply(&r_ast);
        }
        let ghost w4 = *self;
        if self.next_id <= u64::MAX - (r_ship.particles.len() as u64) {
            self.apply(&r_ship);
        }
        let ghost w5 = *self;
        if self.next_id <= u64::MAX - (r_ufo.particles.len() as u64) {
            self.apply(&r_ufo);
        }
        let ghost w6 = *self;
        // second phase of the asteroid spawns queued this frame
        let visuals = if self.next_id <= u64::MAX - (self.pending.len() as u64) {
            self.asteroid_generation_pass(rng)
        } else {
            Vec::new()
        };
        let ghost w7 = *self;
        // lifecycle expiry and flicker
        self.expiration_pass(dt);
        let ghost w8 = *self;
        self.flick_pass(dt);
        let ghost w9 = *self;
        // boundary policy closes the frame
        self.boundary_pass();
        proof {
            assert(frame_stages(
                *old(self), w1, w2, w3, g1, w4, g2, w5, g3, w6, w7, visuals@, w8, w9,
                *self, dt,
            ));
        }
        visuals
    }
}

/// Ship invulnerability, stated over the invariant: a well-formed
/// ship record is collidable exactly while its state is `Alive`.
pub proof fn lemma_collidable_iff_alive(e: Entity)
    requires
        e.wf(),
        e.ship is Some,
    ensures
        e.collidable <==> e.ship == Some(ShipState::Alive),
{
}

/// No detector event of any pair aimed at ships can name a dead or
/// spawning ship: the event's hurtable identity always belongs to a
/// live, collidable record whose state is `Alive`.
pub proof fn lemma_ship_hits_only_alive(w: World, hittable: Category, e: HitEvent)
    requires
        w.wf(),
        detect_spec(
            colliders_spec(w.entities@, hittable),
            colliders_spec(w.entities@, Category::Ship),
        ).contains(e),
    ensures
        lookup(w.entities@, e.hurtable) is Some,
        lookup(w.entities@, e.hurtable).unwrap().ship == Some(ShipState::Alive),
        lookup(w.entities@, e.hurtable).unwrap().collidable,
{
    let hs = colliders_spec(w.entities@, hittable);
    let ss = colliders_spec(w.entities@, Category::Ship);
    crate::detect::lemma_detect_ids(hs, ss, e);
    let j = choose|j: int| 0 <= j < ss.len() && (#[trigger] ss[j]).id == e.hurtable;
    lemma_colliders_membership(w.entities@, Category::Ship);
    assert(collider_row_ok(w.entities@, Category::Ship, j));
    let k = choose|k: int|
        0 <= k < w.entities@.len() && in_detector_set(#[trigger] w.entities@[k], Category::Ship)
            && colliders_spec(w.entities@, Category::Ship)[j] == collider_of(w.entities@[k]);
    let ship = w.entities@[k];
    assert(ship.live && ship.collidable && ship.id == e.hurtable);
    assert(ship.wf());
    assert(ship.ship == Some(ShipState::Alive));
    lemma_lookup_index(w.entities@, e.hurtable);
    match lookup(w.entities@, e.hurtable) {
        Some(found) => {
            let k2 = choose|k2: int|
                0 <= k2 < w.entities@.len() && #[trigger] w.entities@[k2] == found
                    && found.live && found.id == e.hurtable;
            if k2 != k {
                assert(w.entities@[k2].id != w.entities@[k].id);
                assert(false);
            }
        },
        None => {
            assert(!(w.entities@[k].live && w.entities@[k].id == e.hurtable));
            assert(false);
        },
    }
}

} // verus!


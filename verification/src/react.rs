//! Reaction and spawn policy: what a frame's hit events do to the
//! world.  Asteroids split by size tier, saucers and bullets despawn,
//! ships transition to `Dead`, and every reaction scatters a burst of
//! short-lived explosion particles.  Each reactor deduplicates per
//! frame: the first event naming an entity wins and later ones are
//! no-ops.  All effects are collected in a [`Reaction`] and applied
//! in one deferred pass.

use vstd::prelude::*;
use rand::rngs::SmallRng;
use crate::geom::{Vec2, dist2, vec_in, POS_LIMIT, ARENA_LIMIT, RADIUS_LIMIT};
use crate::rng::{range_u64, range_i64};
use crate::detect::HitEvent;
use crate::world::{World, Entity, Category, SpawnRequest, lookup};

verus! {

/// Small-tier radius range.
pub const SMALL_LO: u64 = 10;

pub const SMALL_HI: u64 = 20;

/// Medium-tier radius range.
pub const MEDIUM_LO: u64 = 30;

pub const MEDIUM_HI: u64 = 40;

/// Big-tier radius range.
pub const BIG_LO: u64 = 50;

pub const BIG_HI: u64 = 60;

/// An asteroid's size tier, recomputed from its radius on demand.
/// A radius outside every configured range behaves like the small
/// tier: no fragments, smallest burst.
#[derive(Clone, Copy, Debug, PartialEq, Eq, Structural)]
pub enum SizeClass {
    Small,
    Medium,
    Big,
}

pub open spec fn size_class(radius: u64) -> SizeClass {
    if BIG_LO <= radius < BIG_HI {
        SizeClass::Big
    } else if MEDIUM_LO <= radius < MEDIUM_HI {
        SizeClass::Medium
    } else {
        SizeClass::Small
    }
}

/// Derives the size tier from a radius.
pub fn classify(radius: u64) -> (c: SizeClass)
    ensures
        c == size_class(radius),
{
    if BIG_LO <= radius && radius < BIG_HI {
        SizeClass::Big
    } else if MEDIUM_LO <= radius && radius < MEDIUM_HI {
        SizeClass::Medium
    } else {
        SizeClass::Small
    }
}

/// How many fragments a destroyed asteroid of a tier leaves.
pub open spec fn split_count(c: SizeClass) -> nat {
    match c {
        SizeClass::Big => 3,
        SizeClass::Medium => 2,
        SizeClass::Small => 0,
    }
}

pub fn split_count_of(c: SizeClass) -> (n: u64)
    ensures
        n == split_count(c),
{
    match c {
        SizeClass::Big => 3,
        SizeClass::Medium => 2,
        SizeClass::Small => 0,
    }
}

/// The radius range fragments of a tier are drawn from: one tier down.
pub open spec fn child_lo(c: SizeClass) -> u64 {
    match c {
        SizeClass::Big => MEDIUM_LO,
        SizeClass::Medium => SMALL_LO,
        SizeClass::Small => 0,
    }
}

pub open spec fn child_hi(c: SizeClass) -> u64 {
    match c {
        SizeClass::Big => MEDIUM_HI,
        SizeClass::Medium => SMALL_HI,
        SizeClass::Small => 0,
    }
}

pub fn child_range(c: SizeClass) -> (r: (u64, u64))
    ensures
        r.0 == child_lo(c),
        r.1 == child_hi(c),
{
    match c {
        SizeClass::Big => (MEDIUM_LO, MEDIUM_HI),
        SizeClass::Medium => (SMALL_LO, SMALL_HI),
        SizeClass::Small => (0, 0),
    }
}

/// Explosion burst size multiplier of a destroyed asteroid's tier:
/// the burst holds 12 particles per unit.
pub open spec fn burst_mult(c: SizeClass) -> u64 {
    match c {
        SizeClass::Big => 5,
        SizeClass::Medium => 3,
        SizeClass::Small => 1,
    }
}

pub fn burst_mult_of(c: SizeClass) -> (n: u64)
    ensures
        n == burst_mult(c),
{
    match c {
        SizeClass::Big => 5,
        SizeClass::Medium => 3,
        SizeClass::Small => 1,
    }
}

/// Burst multiplier for a destroyed ship.
pub const SHIP_BURST_MULT: u64 = 6;

/// Burst multiplier for a destroyed saucer.
pub const UFO_BURST_MULT: u64 = 5;

/// Particle speed range of an asteroid or saucer explosion.
pub const BURST_SPEED_LO: u64 = 50;

pub const BURST_SPEED_HI: u64 = 100;

/// Particle speed range of a ship explosion.
pub const SHIP_BURST_SPEED_LO: u64 = 150;

pub const SHIP_BURST_SPEED_HI: u64 = 250;

/// Particle lifetime range of an asteroid or saucer explosion, ms.
pub const BURST_EXPIRE_LO: u64 = 400;

pub const BURST_EXPIRE_HI: u64 = 700;

/// Particle lifetime range of a ship explosion, ms.
pub const SHIP_BURST_EXPIRE_LO: u64 = 1000;

pub const SHIP_BURST_EXPIRE_HI: u64 = 1500;

/// Particle flicker period range, ms.
pub const BURST_FLICK_LO: u64 = 20;

pub const BURST_FLICK_HI: u64 = 30;

/// One explosion particle to spawn: a short-lived, flickering point
/// scattered radially around the explosion center.
#[derive(Clone, Copy, Debug, PartialEq, Eq, Structural)]
pub struct Particle {
    pub pos: Vec2,
    pub vel: Vec2,
    pub expire_ms: u64,
    pub flick_ms: u64,
}

/// What a burst promises of each particle: it lands strictly within
/// 20 units of the center, stays representable, it really moves
/// outward (its speed, taxicab-measured, reaches the lower end of the
/// range up to one unit of rounding), and its speed, lifetime and
/// flicker fall in the requested ranges.
pub open spec fn particle_ok(
    p: Particle,
    center: Vec2,
    speed_lo: u64,
    speed_hi: u64,
    expire_lo: u64,
    expire_hi: u64,
) -> bool {
    &&& dist2(p.pos, center) < 400
    &&& vec_in(p.pos, POS_LIMIT)
    &&& -(speed_hi as int) <= p.vel.x <= speed_hi as int
    &&& -(speed_hi as int) <= p.vel.y <= speed_hi as int
    &&& crate::geom::iabs(p.vel.x as int) + crate::geom::iabs(p.vel.y as int) >= speed_lo - 1
    &&& expire_lo <= p.expire_ms < expire_hi
    &&& BURST_FLICK_LO <= p.flick_ms < BURST_FLICK_HI
}

/// One of twelve evenly spread directions, as a unit vector scaled by
/// 100, rounded to whole percent.  Every entry's taxicab magnitude is
/// at least 100, which is what keeps burst particles moving.
fn dir12(bucket: u64) -> (d: (i64, i64))
    requires
        bucket < 12,
    ensures
        -100 <= d.0 <= 100,
        -100 <= d.1 <= 100,
        crate::geom::iabs(d.0 as int) + crate::geom::iabs(d.1 as int) >= 100,
{
    if bucket == 0 {
        (100, 0)
    } else if bucket == 1 {
        (87, 50)
    } else if bucket == 2 {
        (50, 87)
    } else if bucket == 3 {
        (0, 100)
    } else if bucket == 4 {
        (-50, 87)
    } else if bucket == 5 {
        (-87, 50)
    } else if bucket == 6 {
        (-100, 0)
    } else if bucket == 7 {
        (-87, -50)
    } else if bucket == 8 {
        (-50, -87)
    } else if bucket == 9 {
        (0, -100)
    } else if bucket == 10 {
        (50, -87)
    } else {
        (87, -50)
    }
}

/// `|d| * m / 100` with the sign of `d`: scales one component of a
/// 100-scaled direction, rounding toward zero.
fn scale_dir(d: i64, m: u64) -> (r: i64)
    requires
        -100 <= d <= 100,
        m <= 1000,
    ensures
        r == crate::geom::scale_frac_spec(d as int, m as int, 100),
        -(m as int) <= r <= m as int,
{
    let mag: u64 = if d >= 0 { d as u64 } else { (-d) as u64 };
    proof {
        assert(mag * m <= 100 * m) by (nonlinear_arith)
            requires mag <= 100, 0 <= m;
    }
    let scaled: u64 = mag * m / 100;
    proof {
        vstd::arithmetic::div_mod::lemma_div_is_ordered((mag * m) as int, (100 * m) as int, 100);
        vstd::arithmetic::div_mod::lemma_div_multiples_vanish(m as int, 100);
    }
    if d >= 0 {
        scaled as i64
    } else {
        -(scaled as i64)
    }
}

/// Scatters `12 * mult` explosion particles around a center: twelve
/// angular buckets, with per-particle angular and radial jitter, a
/// random outward speed, lifetime and flicker in the given ranges.
pub fn burst(
    center: Vec2,
    mult: u64,
    speed_lo: u64,
    speed_hi: u64,
    expire_lo: u64,
    expire_hi: u64,
    rng: &mut SmallRng,
) -> (ps: Vec<Particle>)
    requires
        vec_in(center, ARENA_LIMIT),
        1 <= mult <= 12,
        speed_lo < speed_hi <= 1000,
        expire_lo < expire_hi,
    ensures
        ps@.len() == 12 * mult,
        forall|k: int| 0 <= k < ps@.len()
            ==> particle_ok(#[trigger] ps@[k], center, speed_lo, speed_hi, expire_lo, expire_hi),
{
    let mut ps: Vec<Particle> = Vec::new();
    let total: u64 = 12 * mult;
    let mut n: u64 = 0;
    while n < total
        invariant
            n <= total,
            total == 12 * mult,
            ps@.len() == n,
            vec_in(center, ARENA_LIMIT),
            speed_lo < speed_hi <= 1000,
            expire_lo < expire_hi,
            forall|k: int| 0 <= k < ps@.len()
                ==> particle_ok(#[trigger] ps@[k], center, speed_lo, speed_hi, expire_lo, expire_hi),
        decreases total - n,
    {
        let dir = dir12(n % 12);
        let rad: u64 = range_u64(rng, 1, 13);
        let jx: i64 = range_i64(rng, -2, 3);
        let jy: i64 = range_i64(rng, -2, 3);
        let ox: i64 = scale_dir(dir.0, rad) + jx;
        let oy: i64 = scale_dir(dir.1, rad) + jy;
        let speed: u64 = range_u64(rng, speed_lo, speed_hi);
        let p = Particle {
            pos: Vec2 { x: center.x + ox, y: center.y + oy },
            vel: Vec2 { x: scale_dir(dir.0, speed), y: scale_dir(dir.1, speed) },
            expire_ms: range_u64(rng, expire_lo, expire_hi),
            flick_ms: range_u64(rng, BURST_FLICK_LO, BURST_FLICK_HI),
        };
        proof {
            assert(-14 <= ox <= 14 && -14 <= oy <= 14);
            assert(ox * ox + oy * oy <= 392) by (nonlinear_arith)
                requires -14 <= ox <= 14, -14 <= oy <= 14;
            assert(dist2(p.pos, center) == ox * ox + oy * oy);
            crate::geom::lemma_scale_frac_abs(dir.0 as int, speed as int, 100);
            crate::geom::lemma_scale_frac_abs(dir.1 as int, speed as int, 100);
            crate::geom::lemma_scaled_taxicab(
                crate::geom::iabs(dir.0 as int),
                crate::geom::iabs(dir.1 as int),
                speed as int,
            );
        }
        ps.push(p);
        n = n + 1;
    }
    ps
}

/// Whether an identity list contains an identity.
pub fn contains_id(v: &Vec<u64>, x: u64) -> (b: bool)
    ensures
        b == v@.contains(x),
{
    let mut k: usize = 0;
    while k < v.len()
        invariant
            k <= v@.len(),
            forall|t: int| 0 <= t < k ==> v@[t] != x,
        decreases v@.len() - k,
    {
        if v[k] == x {
            return true;
        }
        k = k + 1;
    }
    false
}

/// All the world mutations one reactor asks for, applied deferred in
/// one pass after the frame's reactions have run.
#[derive(Debug)]
pub struct Reaction {
    /// Entities to despawn, first reaction first.
    pub despawns: Vec<u64>,
    /// Ships to transition to `Dead`, stripped of collidable, weapon,
    /// thrust, steering and shape.
    pub ship_deaths: Vec<u64>,
    /// Asteroid fragments to request, resolved by the spawn policy's
    /// generation phase within the same frame.
    pub spawns: Vec<SpawnRequest>,
    /// Explosion particles to spawn.
    pub particles: Vec<Particle>,
}

impl Reaction {
    pub open spec fn wf(self) -> bool {
        &&& forall|k: int| 0 <= k < self.spawns@.len() ==> (#[trigger] self.spawns@[k]).wf()
        &&& forall|k: int| 0 <= k < self.particles@.len()
            ==> vec_in((#[trigger] self.particles@[k]).pos, POS_LIMIT)
    }

}

/// An event is a no-op when either of its entities was already removed
/// by an earlier event of the same reactor this frame.
pub open spec fn pair_blocked(acc: Seq<u64>, e: HitEvent) -> bool {
    acc.contains(e.hurtable) || acc.contains(e.hittable)
}

/// The identities the Bullet-Asteroid reactor despawns, given the
/// identities already removed: per fresh event, the asteroid then the
/// bullet, both exactly once.
pub open spec fn ba_despawns_rec(evs: Seq<HitEvent>, acc: Seq<u64>) -> Seq<u64>
    decreases evs.len(),
{
    if evs.len() == 0 {
        acc
    } else if pair_blocked(acc, evs[0]) {
        ba_despawns_rec(evs.drop_first(), acc)
    } else {
        ba_despawns_rec(evs.drop_first(), acc.push(evs[0].hurtable).push(evs[0].hittable))
    }
}

/// The live asteroid an event's hurtable identity resolves to, if any.
pub open spec fn asteroid_target(ents: Seq<Entity>, id: u64) -> Option<Entity> {
    match lookup(ents, id) {
        Some(a) => if a.category is Asteroid {
            Some(a)
        } else {
            None
        },
        None => None,
    }
}

/// What one fragment owes: the parent's position, and a radius drawn
/// from one tier down.
#[derive(Clone, Copy, Debug, PartialEq, Eq, Structural)]
pub struct FragOb {
    pub pos: Vec2,
    pub lo: u64,
    pub hi: u64,
}

pub open spec fn frag_matches(s: SpawnRequest, ob: FragOb) -> bool {
    s.pos == ob.pos && ob.lo <= s.radius < ob.hi
}

/// The fragments one destroyed asteroid owes: three medium ones for a
/// big asteroid, two small ones for a medium one, none for a small one.
pub open spec fn frag_obs_of(a: Entity) -> Seq<FragOb> {
    Seq::new(
        split_count(size_class(a.radius)),
        |i: int| FragOb {
            pos: a.pos,
            lo: child_lo(size_class(a.radius)),
            hi: child_hi(size_class(a.radius)),
        },
    )
}

/// Fragment obligations of a whole event list under deduplication.
pub open spec fn ba_frags_rec(evs: Seq<HitEvent>, acc: Seq<u64>, ents: Seq<Entity>) -> Seq<FragOb>
    decreases evs.len(),
{
    if evs.len() == 0 {
        Seq::empty()
    } else if pair_blocked(acc, evs[0]) {
        ba_frags_rec(evs.drop_first(), acc, ents)
    } else {
        let obs: Seq<FragOb> = match asteroid_target(ents, evs[0].hurtable) {
            Some(a) => frag_obs_of(a),
            None => Seq::empty(),
        };
        obs + ba_frags_rec(
            evs.drop_first(),
            acc.push(evs[0].hurtable).push(evs[0].hittable),
            ents,
        )
    }
}

/// The burst centers one destroyed asteroid owes: twelve particles per
/// tier-multiplier unit, all at the asteroid's position.
pub open spec fn burst_centers_of(pos: Vec2, mult: u64) -> Seq<Vec2> {
    Seq::new((12 * mult) as nat, |i: int| pos)
}

/// Burst-center obligations of a whole event list under deduplication.
pub open spec fn ba_centers_rec(evs: Seq<HitEvent>, acc: Seq<u64>, ents: Seq<Entity>) -> Seq<Vec2>
    decreases evs.len(),
{
    if evs.len() == 0 {
        Seq::empty()
    } else if pair_blocked(acc, evs[0]) {
        ba_centers_rec(evs.drop_first(), acc, ents)
    } else {
        let obs: Seq<Vec2> = match asteroid_target(ents, evs[0].hurtable) {
            Some(a) => burst_centers_of(a.pos, burst_mult(size_class(a.radius))),
            None => Seq::empty(),
        };
        obs + ba_centers_rec(
            evs.drop_first(),
            acc.push(evs[0].hurtable).push(evs[0].hittable),
            ents,
        )
    }
}

/// The hurtable identities already handled after a reactor walks an
/// event list, deduplicating on the hurtable role.
pub open spec fn seen_rec(evs: Seq<HitEvent>, acc: Seq<u64>) -> Seq<u64>
    decreases evs.len(),
{
    if evs.len() == 0 {
        acc
    } else if acc.contains(evs[0].hurtable) {
        seen_rec(evs.drop_first(), acc)
    } else {
        seen_rec(evs.drop_first(), acc.push(evs[0].hurtable))
    }
}

/// The live ship an event's hurtable identity resolves to, if any.
pub open spec fn ship_target(ents: Seq<Entity>, id: u64) -> Option<Entity> {
    match lookup(ents, id) {
        Some(s) => if s.category is Ship {
            Some(s)
        } else {
            None
        },
        None => None,
    }
}

/// Ships the ship reactor transitions to `Dead`: one death per ship
/// named by a fresh event whose record is found, first event wins.
pub open spec fn ship_deaths_rec(evs: Seq<HitEvent>, acc: Seq<u64>, ents: Seq<Entity>) -> Seq<u64>
    decreases evs.len(),
{
    if evs.len() == 0 {
        Seq::empty()
    } else if acc.contains(evs[0].hurtable) {
        ship_deaths_rec(evs.drop_first(), acc, ents)
    } else {
        let emitted: Seq<u64> = match ship_target(ents, evs[0].hurtable) {
            Some(s) => seq![evs[0].hurtable],
            None => Seq::empty(),
        };
        emitted + ship_deaths_rec(evs.drop_first(), acc.push(evs[0].hurtable), ents)
    }
}

/// Burst centers the ship reactor owes: 12 x 6 particles per death.
pub open spec fn ship_centers_rec(evs: Seq<HitEvent>, acc: Seq<u64>, ents: Seq<Entity>) -> Seq<Vec2>
    decreases evs.len(),
{
    if evs.len() == 0 {
        Seq::empty()
    } else if acc.contains(evs[0].hurtable) {
        ship_centers_rec(evs.drop_first(), acc, ents)
    } else {
        let emitted: Seq<Vec2> = match ship_target(ents, evs[0].hurtable) {
            Some(s) => burst_centers_of(s.pos, SHIP_BURST_MULT),
            None => Seq::empty(),
        };
        emitted + ship_centers_rec(evs.drop_first(), acc.push(evs[0].hurtable), ents)
    }
}

/// The live saucer an event's hurtable identity resolves to, if any.
pub open spec fn ufo_target(ents: Seq<Entity>, id: u64) -> Option<Entity> {
    match lookup(ents, id) {
        Some(s) => if s.category is Ufo {
            Some(s)
        } else {
            None
        },
        None => None,
    }
}

/// Saucers the saucer reactor despawns: each fresh hurtable identity
/// exactly once, whether or not its record is still found.
pub open spec fn ufo_despawns_rec(evs: Seq<HitEvent>, acc: Seq<u64>) -> Seq<u64>
    decreases evs.len(),
{
    if evs.len() == 0 {
        Seq::empty()
    } else if acc.contains(evs[0].hurtable) {
        ufo_despawns_rec(evs.drop_first(), acc)
    } else {
        seq![evs[0].hurtable] + ufo_despawns_rec(evs.drop_first(), acc.push(evs[0].hurtable))
    }
}

/// Burst centers the saucer reactor owes: 12 x 5 particles per saucer
/// whose record is found.
pub open spec fn ufo_centers_rec(evs: Seq<HitEvent>, acc: Seq<u64>, ents: Seq<Entity>) -> Seq<Vec2>
    decreases evs.len(),
{
    if evs.len() == 0 {
        Seq::empty()
    } else if acc.contains(evs[0].hurtable) {
        ufo_centers_rec(evs.drop_first(), acc, ents)
    } else {
        let emitted: Seq<Vec2> = match ufo_target(ents, evs[0].hurtable) {
            Some(s) => burst_centers_of(s.pos, UFO_BURST_MULT),
            None => Seq::empty(),
        };
        emitted + ufo_centers_rec(evs.drop_first(), acc.push(evs[0].hurtable), ents)
    }
}

/// Bullets the saucer reactor cleans up afterwards: the hitting bullet
/// of each bullet event, once, skipping anything already removed.
pub open spec fn bullet_despawns_rec(evs: Seq<HitEvent>, acc: Seq<u64>) -> Seq<u64>
    decreases evs.len(),
{
    if evs.len() == 0 {
        Seq::empty()
    } else if acc.contains(evs[0].hittable) {
        bullet_despawns_rec(evs.drop_first(), acc)
    } else {
        seq![evs[0].hittable] + bullet_despawns_rec(evs.drop_first(), acc.push(evs[0].hittable))
    }
}

/// The removed-set after the bullet cleanup walk.
pub open spec fn bullet_seen_rec(evs: Seq<HitEvent>, acc: Seq<u64>) -> Seq<u64>
    decreases evs.len(),
{
    if evs.len() == 0 {
        acc
    } else if acc.contains(evs[0].hittable) {
        bullet_seen_rec(evs.drop_first(), acc)
    } else {
        bullet_seen_rec(evs.drop_first(), acc.push(evs[0].hittable))
    }
}

/// Everything the Bullet-Asteroid reactor promises of its output,
/// against the frame's events and the records they resolve in.
pub open spec fn ba_reaction_ok(r: Reaction, events: Seq<HitEvent>, ents: Seq<Entity>) -> bool {
    &&& r.wf()
    &&& r.ship_deaths@ == Seq::<u64>::empty()
    &&& r.despawns@ == ba_despawns_rec(events, Seq::<u64>::empty())
    &&& r.spawns@.len() == ba_frags_rec(events, Seq::<u64>::empty(), ents).len()
    &&& forall|k: int| 0 <= k < r.spawns@.len() ==> frag_matches(
        #[trigger] r.spawns@[k],
        ba_frags_rec(events, Seq::<u64>::empty(), ents)[k],
    )
    &&& r.particles@.len() == ba_centers_rec(events, Seq::<u64>::empty(), ents).len()
    &&& forall|k: int| 0 <= k < r.particles@.len() ==> particle_ok(
        #[trigger] r.particles@[k],
        ba_centers_rec(events, Seq::<u64>::empty(), ents)[k],
        BURST_SPEED_LO,
        BURST_SPEED_HI,
        BURST_EXPIRE_LO,
        BURST_EXPIRE_HI,
    )
}

impl World {
    /// Reacts to this frame's Bullet-Asteroid hit events: despawns
    /// each hit asteroid and bullet exactly once (later events naming
    /// an already removed entity are no-ops), requests the tier's
    /// fragments at the asteroid's position, and scatters a burst of
    /// twelve particles per tier-multiplier unit there.
    pub fn react_bullet_asteroid(&self, events: &Vec<HitEvent>, rng: &mut SmallRng) -> (r: Reaction)
        requires
            self.wf(),
        ensures
            ba_reaction_ok(r, events@, self.entities@),
    {
        let ghost ents = self.entities@;
        let ghost dfin = ba_despawns_rec(events@, Seq::<u64>::empty());
        let ghost ffin = ba_frags_rec(events@, Seq::<u64>::empty(), ents);
        let ghost cfin = ba_centers_rec(events@, Seq::<u64>::empty(), ents);
        let mut despawns: Vec<u64> = Vec::new();
        let mut spawns: Vec<SpawnRequest> = Vec::new();
        let mut particles: Vec<Particle> = Vec::new();
        proof {
            assert(events@.skip(0) =~= events@);
            assert(despawns@ =~= Seq::<u64>::empty());
            assert(ffin.skip(0) =~= ffin);
            assert(cfin.skip(0) =~= cfin);
        }
        let mut i: usize = 0;
        while i < events.len()
            invariant
                i <= events@.len(),
                self.wf(),
                ents == self.entities@,
                dfin == ba_despawns_rec(events@, Seq::<u64>::empty()),
                ffin == ba_frags_rec(events@, Seq::<u64>::empty(), ents),
                cfin == ba_centers_rec(events@, Seq::<u64>::empty(), ents),
                ba_despawns_rec(events@.skip(i as int), despawns@) == dfin,
                ba_frags_rec(events@.skip(i as int), despawns@, ents)
                    == ffin.skip(spawns@.len() as int),
                spawns@.len() <= ffin.len(),
                forall|k: int| 0 <= k < spawns@.len()
                    ==> frag_matches(#[trigger] spawns@[k], ffin[k]),
                forall|k: int| 0 <= k < spawns@.len() ==> (#[trigger] spawns@[k]).wf(),
                ba_centers_rec(events@.skip(i as int), despawns@, ents)
                    == cfin.skip(particles@.len() as int),
                particles@.len() <= cfin.len(),
                forall|k: int| 0 <= k < particles@.len() ==> particle_ok(
                    #[trigger] particles@[k],
                    cfin[k],
                    BURST_SPEED_LO,
                    BURST_SPEED_HI,
                    BURST_EXPIRE_LO,
                    BURST_EXPIRE_HI,
                ),
            decreases events@.len() - i,
        {
            let e = events[i];
            proof {
                assert(events@.skip(i as int)[0] == e);
                assert(events@.skip(i as int).drop_first() =~= events@.skip(i as int + 1));
            }
            let blocked = contains_id(&despawns, e.hurtable) || contains_id(&despawns, e.hittable);
            if !blocked {
                let ghost acc0 = despawns@;
                let ghost slen0 = spawns@.len() as int;
                let ghost clen0 = particles@.len() as int;
                let ghost acc1 = acc0.push(e.hurtable).push(e.hittable);
                // resolve the asteroid; a stale identity misses softly
                let mut target: Option<Entity> = None;
                match self.find_live(e.hurtable) {
                    Some(k) => {
                        let a = self.entities[k];
                        if a.category == Category::Asteroid {
                            target = Some(a);
                        }
                    },
                    None => {},
                }
                proof {
                    match target {
                        Some(a) => {
                            assert(asteroid_target(ents, e.hurtable) == Some(a));
                        },
                        None => {
                            assert(asteroid_target(ents, e.hurtable) is None);
                        },
                    }
                }
                match target {
                    Some(a) => {
                        proof {
                            assert(a.wf());
                        }
                        let ghost fobs = frag_obs_of(a);
                        let ghost cobs = burst_centers_of(
                            a.pos,
                            burst_mult(size_class(a.radius)),
                        );
                        proof {
                            assert(ba_frags_rec(events@.skip(i as int), acc0, ents)
                                == fobs + ba_frags_rec(events@.skip(i as int + 1), acc1, ents));
                            assert(ba_centers_rec(events@.skip(i as int), acc0, ents)
                                == cobs + ba_centers_rec(events@.skip(i as int + 1), acc1, ents));
                            assert forall|u: int| 0 <= u < fobs.len()
                                implies ffin[slen0 + u] == fobs[u] by {
                                assert(ffin.skip(slen0)[u] == fobs[u]);
                            }
                            assert forall|u: int| 0 <= u < cobs.len()
                                implies cfin[clen0 + u] == cobs[u] by {
                                assert(cfin.skip(clen0)[u] == cobs[u]);
                            }
                            assert(slen0 + fobs.len() <= ffin.len()) by {
                                assert(ffin.skip(slen0).len() == ffin.len() - slen0);
                            }
                            assert(clen0 + cobs.len() <= cfin.len()) by {
                                assert(cfin.skip(clen0).len() == cfin.len() - clen0);
                            }
                        }
                        let c = classify(a.radius);
                        let nf = split_count_of(c);
                        let (lo, hi) = child_range(c);
                        let mut t: u64 = 0;
                        while t < nf
                            invariant
                                t <= nf,
                                nf == split_count(size_class(a.radius)),
                                lo == child_lo(size_class(a.radius)),
                                hi == child_hi(size_class(a.radius)),
                                nf > 0 ==> lo < hi,
                                a.wf(),
                                a.category is Asteroid,
                                1 <= nf ==> 1 <= lo && hi <= RADIUS_LIMIT,
                                fobs == frag_obs_of(a),
                                spawns@.len() == slen0 + t,
                                slen0 + nf <= ffin.len(),
                                forall|u: int| 0 <= u < fobs.len()
                                    ==> ffin[slen0 + u] == #[trigger] fobs[u],
                                forall|k: int| 0 <= k < spawns@.len()
                                    ==> frag_matches(#[trigger] spawns@[k], ffin[k]),
                                forall|k: int| 0 <= k < spawns@.len()
                                    ==> (#[trigger] spawns@[k]).wf(),
                            decreases nf - t,
                        {
                            let rad = range_u64(rng, lo, hi);
                            spawns.push(SpawnRequest { pos: a.pos, radius: rad });
                            proof {
                                assert(vec_in(a.pos, ARENA_LIMIT));
                                assert(fobs[t as int] == (FragOb { pos: a.pos, lo, hi }));
                            }
                            t = t + 1;
                        }
                        let m = burst_mult_of(c);
                        let ps = burst(
                            a.pos,
                            m,
                            BURST_SPEED_LO,
                            BURST_SPEED_HI,
                            BURST_EXPIRE_LO,
                            BURST_EXPIRE_HI,
                            rng,
                        );
                        let mut q: usize = 0;
                        while q < ps.len()
                            invariant
                                q <= ps@.len(),
                                ps@.len() == 12 * m,
                                m == burst_mult(size_class(a.radius)),
                                cobs == burst_centers_of(a.pos, m),
                                particles@.len() == clen0 + q,
                                clen0 + 12 * m <= cfin.len(),
                                forall|u: int| 0 <= u < cobs.len()
                                    ==> cfin[clen0 + u] == #[trigger] cobs[u],
                                forall|u: int| 0 <= u < ps@.len() ==> particle_ok(
                                    #[trigger] ps@[u],
                                    a.pos,
                                    BURST_SPEED_LO,
                                    BURST_SPEED_HI,
                                    BURST_EXPIRE_LO,
                                    BURST_EXPIRE_HI,
                                ),
                                forall|k: int| 0 <= k < particles@.len() ==> particle_ok(
                                    #[trigger] particles@[k],
                                    cfin[k],
                                    BURST_SPEED_LO,
                                    BURST_SPEED_HI,
                                    BURST_EXPIRE_LO,
                                    BURST_EXPIRE_HI,
                                ),
                            decreases ps@.len() - q,
                        {
                            let p = ps[q];
                            particles.push(p);
                            proof {
                                assert(cobs[q as int] == a.pos);
                            }
                            q = q + 1;
                        }
                        despawns.push(e.hurtable);
                        despawns.push(e.hittable);
                        proof {
                            assert(despawns@ =~= acc1);
                            assert(ffin.skip(slen0).skip(fobs.len() as int)
                                =~= ffin.skip(slen0 + fobs.len()));
                            assert(ba_frags_rec(events@.skip(i as int + 1), acc1, ents)
                                =~= ffin.skip(slen0).skip(fobs.len() as int));
                            assert(cfin.skip(clen0).skip(cobs.len() as int)
                                =~= cfin.skip(clen0 + cobs.len()));
                            assert(ba_centers_rec(events@.skip(i as int + 1), acc1, ents)
                                =~= cfin.skip(clen0).skip(cobs.len() as int));
                        }
                    },
                    None => {
                        despawns.push(e.hurtable);
                        despawns.push(e.hittable);
                        proof {
                            assert(despawns@ =~= acc1);
                            assert(ba_frags_rec(events@.skip(i as int), acc0, ents)
                                == Seq::<FragOb>::empty()
                                    + ba_frags_rec(events@.skip(i as int + 1), acc1, ents));
                            assert(Seq::<FragOb>::empty()
                                + ba_frags_rec(events@.skip(i as int + 1), acc1, ents)
                                =~= ba_frags_rec(events@.skip(i as int + 1), acc1, ents));
                            assert(ba_centers_rec(events@.skip(i as int), acc0, ents)
                                == Seq::<Vec2>::empty()
                                    + ba_centers_rec(events@.skip(i as int + 1), acc1, ents));
                            assert(Seq::<Vec2>::empty()
                                + ba_centers_rec(events@.skip(i as int + 1), acc1, ents)
                                =~= ba_centers_rec(events@.skip(i as int + 1), acc1, ents));
                        }
                    },
                }
            }
            i = i + 1;
        }
        proof {
            assert(events@.skip(events@.len() as int) =~= Seq::<HitEvent>::empty());
            assert(ffin.skip(spawns@.len() as int).len() == 0);
            assert(cfin.skip(particles@.len() as int).len() == 0);
        }
        Reaction { despawns, ship_deaths: Vec::new(), spawns, particles }
    }

    /// Walks one bus worth of ship-hurting events, deduplicating on
    /// the ship, recording deaths and scattering the 12 x 6 burst.
    fn ship_hits_phase(
        &self,
        events: &Vec<HitEvent>,
        seen: &mut Vec<u64>,
        deaths: &mut Vec<u64>,
        particles: &mut Vec<Particle>,
        rng: &mut SmallRng,
    )
        requires
            self.wf(),
        ensures
            final(seen)@ == seen_rec(events@, old(seen)@),
            final(deaths)@ == old(deaths)@ + ship_deaths_rec(events@, old(seen)@, self.entities@),
            final(particles)@.len() == old(particles)@.len()
                + ship_centers_rec(events@, old(seen)@, self.entities@).len(),
            forall|k: int| 0 <= k < old(particles)@.len()
                ==> #[trigger] final(particles)@[k] == old(particles)@[k],
            forall|k: int| old(particles)@.len() <= k < final(particles)@.len()
                ==> particle_ok(
                    #[trigger] final(particles)@[k],
                    ship_centers_rec(events@, old(seen)@, self.entities@)[
                        k - old(particles)@.len()],
                    SHIP_BURST_SPEED_LO,
                    SHIP_BURST_SPEED_HI,
                    SHIP_BURST_EXPIRE_LO,
                    SHIP_BURST_EXPIRE_HI,
                ),
    {
        let ghost ents = self.entities@;
        let ghost seen0 = seen@;
        let ghost dlen0 = deaths@.len() as int;
        let ghost plen0 = particles@.len() as int;
        let ghost sfin = seen_rec(events@, seen0);
        let ghost dfin = ship_deaths_rec(events@, seen0, ents);
        let ghost cfin = ship_centers_rec(events@, seen0, ents);
        proof {
            assert(events@.skip(0) =~= events@);
            assert(cfin.skip(0) =~= cfin);
            assert(deaths@ + Seq::<u64>::empty() =~= deaths@);
        }
        let mut i: usize = 0;
        while i < events.len()
            invariant
                i <= events@.len(),
                self.wf(),
                ents == self.entities@,
                sfin == seen_rec(events@, seen0),
                dfin == ship_deaths_rec(events@, seen0, ents),
                cfin == ship_centers_rec(events@, seen0, ents),
                seen_rec(events@.skip(i as int), seen@) == sfin,
                dlen0 == old(deaths)@.len(),
                plen0 == old(particles)@.len(),
                deaths@.len() >= dlen0,
                deaths@.skip(dlen0) + ship_deaths_rec(events@.skip(i as int), seen@, ents) == dfin,
                forall|k: int| 0 <= k < dlen0
                    ==> #[trigger] deaths@[k] == old(deaths)@[k],
                deaths@.len() - dlen0 <= dfin.len(),
                particles@.len() >= plen0,
                ship_centers_rec(events@.skip(i as int), seen@, ents)
                    == cfin.skip(particles@.len() - plen0),
                particles@.len() - plen0 <= cfin.len(),
                forall|k: int| 0 <= k < plen0
                    ==> #[trigger] particles@[k] == old(particles)@[k],
                forall|k: int| plen0 <= k < particles@.len() ==> particle_ok(
                    #[trigger] particles@[k],
                    cfin[k - plen0],
                    SHIP_BURST_SPEED_LO,
                    SHIP_BURST_SPEED_HI,
                    SHIP_BURST_EXPIRE_LO,
                    SHIP_BURST_EXPIRE_HI,
                ),
            decreases events@.len() - i,
        {
            let e = events[i];
            proof {
                assert(events@.skip(i as int)[0] == e);
                assert(events@.skip(i as int).drop_first() =~= events@.skip(i as int + 1));
            }
            if !contains_id(seen, e.hurtable) {
                let ghost acc0 = seen@;
                let ghost acc1 = acc0.push(e.hurtable);
                let ghost done0 = particles@.len() - plen0;
                let mut target: Option<Entity> = None;
                match self.find_live(e.hurtable) {
                    Some(k) => {
                        let s = self.entities[k];
                        if s.category == Category::Ship {
                            target = Some(s);
                        }
                    },
                    None => {},
                }
                proof {
                    match target {
                        Some(s) => {
                            assert(ship_target(ents, e.hurtable) == Some(s));
                        },
                        None => {
                            assert(ship_target(ents, e.hurtable) is None);
                        },
                    }
                }
                match target {
                    Some(s) => {
                        proof {
                            assert(s.wf());
                            assert(vec_in(s.pos, ARENA_LIMIT));
                        }
                        let ghost cobs = burst_centers_of(s.pos, SHIP_BURST_MULT);
                        proof {
                            assert(ship_centers_rec(events@.skip(i as int), acc0, ents)
                                == cobs + ship_centers_rec(events@.skip(i as int + 1), acc1, ents));
                            assert forall|u: int| 0 <= u < cobs.len()
                                implies cfin[done0 + u] == #[trigger] cobs[u] by {
                                assert(cfin.skip(done0)[u] == cobs[u]);
                            }
                            assert(done0 + cobs.len() <= cfin.len()) by {
                                assert(cfin.skip(done0).len() == cfin.len() - done0);
                            }
                        }
                        let ghost dbefore = deaths@;
                        deaths.push(e.hurtable);
                        let ps = burst(
                            s.pos,
                            SHIP_BURST_MULT,
                            SHIP_BURST_SPEED_LO,
                            SHIP_BURST_SPEED_HI,
                            SHIP_BURST_EXPIRE_LO,
                            SHIP_BURST_EXPIRE_HI,
                            rng,
                        );
                        let mut q: usize = 0;
                        while q < ps.len()
                            invariant
                                q <= ps@.len(),
                                ps@.len() == 12 * SHIP_BURST_MULT,
                                cobs == burst_centers_of(s.pos, SHIP_BURST_MULT),
                                plen0 == old(particles)@.len(),
                                particles@.len() - plen0 == done0 + q,
                                particles@.len() >= plen0,
                                done0 >= 0,
                                done0 + 12 * SHIP_BURST_MULT <= cfin.len(),
                                forall|u: int| 0 <= u < cobs.len()
                                    ==> cfin[done0 + u] == #[trigger] cobs[u],
                                forall|u: int| 0 <= u < ps@.len() ==> particle_ok(
                                    #[trigger] ps@[u],
                                    s.pos,
                                    SHIP_BURST_SPEED_LO,
                                    SHIP_BURST_SPEED_HI,
                                    SHIP_BURST_EXPIRE_LO,
                                    SHIP_BURST_EXPIRE_HI,
                                ),
                                forall|k: int| 0 <= k < plen0
                                    ==> #[trigger] particles@[k] == old(particles)@[k],
                                forall|k: int| plen0 <= k < particles@.len() ==> particle_ok(
                                    #[trigger] particles@[k],
                                    cfin[k - plen0],
                                    SHIP_BURST_SPEED_LO,
                                    SHIP_BURST_SPEED_HI,
                                    SHIP_BURST_EXPIRE_LO,
                                    SHIP_BURST_EXPIRE_HI,
                                ),
                            decreases ps@.len() - q,
                        {
                            let p = ps[q];
                            proof {
                                assert(cobs[q as int] == s.pos);
                                assert(cfin[done0 + q] == s.pos);
                                assert(particle_ok(
                                    ps@[q as int],
                                    s.pos,
                                    SHIP_BURST_SPEED_LO,
                                    SHIP_BURST_SPEED_HI,
                                    SHIP_BURST_EXPIRE_LO,
                                    SHIP_BURST_EXPIRE_HI,
                                ));
                            }
                            particles.push(p);
                            q = q + 1;
                        }
                        seen.push(e.hurtable);
                        proof {
                            assert(seen@ =~= acc1);
                            assert(cfin.skip(done0).skip(cobs.len() as int)
                                =~= cfin.skip(done0 + cobs.len()));
                            assert(ship_centers_rec(events@.skip(i as int + 1), acc1, ents)
                                =~= cfin.skip(done0).skip(cobs.len() as int));
                            assert(deaths@ =~= dbefore.push(e.hurtable));
                            assert(deaths@.skip(dlen0) =~= dbefore.skip(dlen0).push(e.hurtable));
                            assert(dbefore.skip(dlen0).push(e.hurtable)
                                + ship_deaths_rec(events@.skip(i as int + 1), acc1, ents)
                                =~= dbefore.skip(dlen0)
                                    + (seq![e.hurtable]
                                        + ship_deaths_rec(events@.skip(i as int + 1), acc1, ents)));
                        }
                    },
                    None => {
                        seen.push(e.hurtable);
                        proof {
                            assert(seen@ =~= acc1);
                            assert(ship_deaths_rec(events@.skip(i as int), acc0, ents)
                                == Seq::<u64>::empty()
                                    + ship_deaths_rec(events@.skip(i as int + 1), acc1, ents));
                            assert(Seq::<u64>::empty()
                                + ship_deaths_rec(events@.skip(i as int + 1), acc1, ents)
                                =~= ship_deaths_rec(events@.skip(i as int + 1), acc1, ents));
                            assert(ship_centers_rec(events@.skip(i as int), acc0, ents)
                                == Seq::<Vec2>::empty()
                                    + ship_centers_rec(events@.skip(i as int + 1), acc1, ents));
                            assert(Seq::<Vec2>::empty()
                                + ship_centers_rec(events@.skip(i as int + 1), acc1, ents)
                                =~= ship_centers_rec(events@.skip(i as int + 1), acc1, ents));
                        }
                    },
                }
            }
            i = i + 1;
        }
        proof {
            assert(events@.skip(events@.len() as int) =~= Seq::<HitEvent>::empty());
            assert(deaths@.skip(dlen0) + Seq::<u64>::empty() =~= deaths@.skip(dlen0));
            assert(deaths@ =~= old(deaths)@ + deaths@.skip(dlen0));
            assert(cfin.skip(particles@.len() - plen0).len() == 0);
        }
    }

    /// Reacts to this frame's ship-hurting hit events, all three
    /// buses in order: each hit ship transitions to `Dead` exactly
    /// once per frame, with a 12 x 6 explosion burst at its position.
    pub fn react_ship_hits(
        &self,
        asteroid_hits: &Vec<HitEvent>,
        bullet_hits: &Vec<HitEvent>,
        ufo_hits: &Vec<HitEvent>,
        rng: &mut SmallRng,
    ) -> (r: Reaction)
        requires
            self.wf(),
        ensures
            ship_reaction_ok(r, asteroid_hits@, bullet_hits@, ufo_hits@, self.entities@),
    {
        let mut seen: Vec<u64> = Vec::new();
        let mut deaths: Vec<u64> = Vec::new();
        let mut particles: Vec<Particle> = Vec::new();
        let ghost ents = self.entities@;
        let ghost s0 = Seq::<u64>::empty();
        proof {
            assert(seen@ =~= s0);
        }
        let ghost s1 = seen_rec(asteroid_hits@, s0);
        let ghost s2 = seen_rec(bullet_hits@, s1);
        let ghost c1 = ship_centers_rec(asteroid_hits@, s0, ents);
        let ghost c2 = ship_centers_rec(bullet_hits@, s1, ents);
        let ghost c3 = ship_centers_rec(ufo_hits@, s2, ents);
        self.ship_hits_phase(asteroid_hits, &mut seen, &mut deaths, &mut particles, rng);
        self.ship_hits_phase(bullet_hits, &mut seen, &mut deaths, &mut particles, rng);
        self.ship_hits_phase(ufo_hits, &mut seen, &mut deaths, &mut particles, rng);
        proof {
            assert(ship_hit_centers(asteroid_hits@, bullet_hits@, ufo_hits@, ents)
                == c1 + c2 + c3);
            assert forall|k: int| 0 <= k < particles@.len() implies particle_ok(
                #[trigger] particles@[k],
                (c1 + c2 + c3)[k],
                SHIP_BURST_SPEED_LO,
                SHIP_BURST_SPEED_HI,
                SHIP_BURST_EXPIRE_LO,
                SHIP_BURST_EXPIRE_HI,
            ) by {
                if k < c1.len() {
                    assert((c1 + c2 + c3)[k] == c1[k]);
                } else if k < c1.len() + c2.len() {
                    assert((c1 + c2 + c3)[k] == c2[k - c1.len()]);
                } else {
                    assert((c1 + c2 + c3)[k] == c3[k - c1.len() - c2.len()]);
                }
            }
        }
        Reaction { despawns: Vec::new(), ship_deaths: deaths, spawns: Vec::new(), particles }
    }
}

impl World {
    /// Walks one bus worth of saucer-hurting events, deduplicating on
    /// the saucer: each fresh saucer identity despawns exactly once,
    /// and a found record gets the 12 x 5 burst at its position.
    fn ufo_hits_phase(
        &self,
        events: &Vec<HitEvent>,
        seen: &mut Vec<u64>,
        despawns: &mut Vec<u64>,
        particles: &mut Vec<Particle>,
        rng: &mut SmallRng,
    )
        requires
            self.wf(),
        ensures
            final(seen)@ == seen_rec(events@, old(seen)@),
            final(despawns)@ == old(despawns)@ + ufo_despawns_rec(events@, old(seen)@),
            final(particles)@.len() == old(particles)@.len()
                + ufo_centers_rec(events@, old(seen)@, self.entities@).len(),
            forall|k: int| 0 <= k < old(particles)@.len()
                ==> #[trigger] final(particles)@[k] == old(particles)@[k],
            forall|k: int| old(particles)@.len() <= k < final(particles)@.len()
                ==> particle_ok(
                    #[trigger] final(particles)@[k],
                    ufo_centers_rec(events@, old(seen)@, self.entities@)[
                        k - old(particles)@.len()],
                    BURST_SPEED_LO,
                    BURST_SPEED_HI,
                    BURST_EXPIRE_LO,
                    BURST_EXPIRE_HI,
                ),
    {
        let ghost ents = self.entities@;
        let ghost seen0 = seen@;
        let ghost dlen0 = despawns@.len() as int;
        let ghost plen0 = particles@.len() as int;
        let ghost sfin = seen_rec(events@, seen0);
        let ghost dfin = ufo_despawns_rec(events@, seen0);
        let ghost cfin = ufo_centers_rec(events@, seen0, ents);
        proof {
            assert(events@.skip(0) =~= events@);
            assert(cfin.skip(0) =~= cfin);
            assert(despawns@.skip(dlen0) =~= Seq::<u64>::empty());
        }
        let mut i: usize = 0;
        while i < events.len()
            invariant
                i <= events@.len(),
                self.wf(),
                ents == self.entities@,
                sfin == seen_rec(events@, seen0),
                dfin == ufo_despawns_rec(events@, seen0),
                cfin == ufo_centers_rec(events@, seen0, ents),
                seen_rec(events@.skip(i as int), seen@) == sfin,
                dlen0 == old(despawns)@.len(),
                plen0 == old(particles)@.len(),
                despawns@.len() >= dlen0,
                despawns@.skip(dlen0) + ufo_despawns_rec(events@.skip(i as int), seen@) == dfin,
                forall|k: int| 0 <= k < dlen0
                    ==> #[trigger] despawns@[k] == old(despawns)@[k],
                particles@.len() >= plen0,
                ufo_centers_rec(events@.skip(i as int), seen@, ents)
                    == cfin.skip(particles@.len() - plen0),
                particles@.len() - plen0 <= cfin.len(),
                forall|k: int| 0 <= k < plen0
                    ==> #[trigger] particles@[k] == old(particles)@[k],
                forall|k: int| plen0 <= k < particles@.len() ==> particle_ok(
                    #[trigger] particles@[k],
                    cfin[k - plen0],
                    BURST_SPEED_LO,
                    BURST_SPEED_HI,
                    BURST_EXPIRE_LO,
                    BURST_EXPIRE_HI,
                ),
            decreases events@.len() - i,
        {
            let e = events[i];
            proof {
                assert(events@.skip(i as int)[0] == e);
                assert(events@.skip(i as int).drop_first() =~= events@.skip(i as int + 1));
            }
            if !contains_id(seen, e.hurtable) {
                let ghost acc0 = seen@;
                let ghost acc1 = acc0.push(e.hurtable);
                let ghost done0 = particles@.len() - plen0;
                let ghost dbefore = despawns@;
                let mut target: Option<Entity> = None;
                match self.find_live(e.hurtable) {
                    Some(k) => {
                        let s = self.entities[k];
                        if s.category == Category::Ufo {
                            target = Some(s);
                        }
                    },
                    None => {},
                }
                proof {
                    match target {
                        Some(s) => {
                            assert(ufo_target(ents, e.hurtable) == Some(s));
                        },
                        None => {
                            assert(ufo_target(ents, e.hurtable) is None);
                        },
                    }
                    assert(ufo_despawns_rec(events@.skip(i as int), acc0)
                        == seq![e.hurtable] + ufo_despawns_rec(events@.skip(i as int + 1), acc1));
                }
                despawns.push(e.hurtable);
                proof {
                    assert(despawns@ =~= dbefore.push(e.hurtable));
                    assert(despawns@.skip(dlen0) =~= dbefore.skip(dlen0).push(e.hurtable));
                    assert(dbefore.skip(dlen0).push(e.hurtable)
                        + ufo_despawns_rec(events@.skip(i as int + 1), acc1)
                        =~= dbefore.skip(dlen0)
                            + (seq![e.hurtable]
                                + ufo_despawns_rec(events@.skip(i as int + 1), acc1)));
                }
                match target {
                    Some(s) => {
                        proof {
                            assert(s.wf());
                            assert(vec_in(s.pos, ARENA_LIMIT));
                        }
                        let ghost cobs = burst_centers_of(s.pos, UFO_BURST_MULT);
                        proof {
                            assert(ufo_centers_rec(events@.skip(i as int), acc0, ents)
                                == cobs + ufo_centers_rec(events@.skip(i as int + 1), acc1, ents));
                            assert forall|u: int| 0 <= u < cobs.len()
                                implies cfin[done0 + u] == #[trigger] cobs[u] by {
                                assert(cfin.skip(done0)[u] == cobs[u]);
                            }
                            assert(done0 + cobs.len() <= cfin.len()) by {
                                assert(cfin.skip(done0).len() == cfin.len() - done0);
                            }
                        }
                        let ps = burst(
                            s.pos,
                            UFO_BURST_MULT,
                            BURST_SPEED_LO,
                            BURST_SPEED_HI,
                            BURST_EXPIRE_LO,
                            BURST_EXPIRE_HI,
                            rng,
                        );
                        let mut q: usize = 0;
                        while q < ps.len()
                            invariant
                                q <= ps@.len(),
                                ps@.len() == 12 * UFO_BURST_MULT,
                                cobs == burst_centers_of(s.pos, UFO_BURST_MULT),
                                plen0 == old(particles)@.len(),
                                particles@.len() - plen0 == done0 + q,
                                particles@.len() >= plen0,
                                done0 >= 0,
                                done0 + 12 * UFO_BURST_MULT <= cfin.len(),
                                forall|u: int| 0 <= u < cobs.len()
                                    ==> cfin[done0 + u] == #[trigger] cobs[u],
                                forall|u: int| 0 <= u < ps@.len() ==> particle_ok(
                                    #[trigger] ps@[u],
                                    s.pos,
                                    BURST_SPEED_LO,
                                    BURST_SPEED_HI,
                                    BURST_EXPIRE_LO,
                                    BURST_EXPIRE_HI,
                                ),
                                forall|k: int| 0 <= k < plen0
                                    ==> #[trigger] particles@[k] == old(particles)@[k],
                                forall|k: int| plen0 <= k < particles@.len() ==> particle_ok(
                                    #[trigger] particles@[k],
                                    cfin[k - plen0],
                                    BURST_SPEED_LO,
                                    BURST_SPEED_HI,
                                    BURST_EXPIRE_LO,
                                    BURST_EXPIRE_HI,
                                ),
                            decreases ps@.len() - q,
                        {
                            let p = ps[q];
                            proof {
                                assert(cobs[q as int] == s.pos);
                                assert(cfin[done0 + q] == s.pos);
                                assert(particle_ok(
                                    ps@[q as int],
                                    s.pos,
                                    BURST_SPEED_LO,
                                    BURST_SPEED_HI,
                                    BURST_EXPIRE_LO,
                                    BURST_EXPIRE_HI,
                                ));
                            }
                            particles.push(p);
                            q = q + 1;
                        }
                        seen.push(e.hurtable);
                        proof {
                            assert(seen@ =~= acc1);
                            assert(cfin.skip(done0).skip(cobs.len() as int)
                                =~= cfin.skip(done0 + cobs.len()));
                            assert(ufo_centers_rec(events@.skip(i as int + 1), acc1, ents)
                                =~= cfin.skip(done0).skip(cobs.len() as int));
                        }
                    },
                    None => {
                        seen.push(e.hurtable);
                        proof {
                            assert(seen@ =~= acc1);
                            assert(ufo_centers_rec(events@.skip(i as int), acc0, ents)
                                == Seq::<Vec2>::empty()
                                    + ufo_centers_rec(events@.skip(i as int + 1), acc1, ents));
                            assert(Seq::<Vec2>::empty()
                                + ufo_centers_rec(events@.skip(i as int + 1), acc1, ents)
                                =~= ufo_centers_rec(events@.skip(i as int + 1), acc1, ents));
                        }
                    },
                }
            }
            i = i + 1;
        }
        proof {
            assert(events@.skip(events@.len() as int) =~= Seq::<HitEvent>::empty());
            assert(despawns@.skip(dlen0) + Seq::<u64>::empty() =~= despawns@.skip(dlen0));
            assert(despawns@ =~= old(despawns)@ + despawns@.skip(dlen0));
            assert(cfin.skip(particles@.len() - plen0).len() == 0);
        }
    }

    /// Reacts to this frame's saucer-hurting hit events, bullet bus
    /// then asteroid bus: each hit saucer despawns exactly once with a
    /// 12 x 5 burst, and afterwards each triggering bullet not already
    /// removed despawns too.
    pub fn react_ufo_hits(
        &self,
        bullet_hits: &Vec<HitEvent>,
        asteroid_hits: &Vec<HitEvent>,
        rng: &mut SmallRng,
    ) -> (r: Reaction)
        requires
            self.wf(),
        ensures
            ufo_reaction_ok(r, bullet_hits@, asteroid_hits@, self.entities@),
    {
        let mut seen: Vec<u64> = Vec::new();
        let mut despawns: Vec<u64> = Vec::new();
        let mut particles: Vec<Particle> = Vec::new();
        let ghost ents = self.entities@;
        let ghost s0 = Seq::<u64>::empty();
        proof {
            assert(seen@ =~= s0);
        }
        let ghost s1 = seen_rec(bullet_hits@, s0);
        let ghost s2 = seen_rec(asteroid_hits@, s1);
        let ghost c1 = ufo_centers_rec(bullet_hits@, s0, ents);
        let ghost c2 = ufo_centers_rec(asteroid_hits@, s1, ents);
        let ghost d1 = ufo_despawns_rec(bullet_hits@, s0);
        let ghost d2 = ufo_despawns_rec(asteroid_hits@, s1);
        self.ufo_hits_phase(bullet_hits, &mut seen, &mut despawns, &mut particles, rng);
        self.ufo_hits_phase(asteroid_hits, &mut seen, &mut despawns, &mut particles, rng);
        let ghost dub = despawns@;
        // clean up the bullets that triggered the bullet-bus events
        let ghost bfin = bullet_despawns_rec(bullet_hits@, s2);
        proof {
            assert(bullet_hits@.skip(0) =~= bullet_hits@);
            assert(despawns@.skip(dub.len() as int) =~= Seq::<u64>::empty());
        }
        let mut i: usize = 0;
        while i < bullet_hits.len()
            invariant
                i <= bullet_hits@.len(),
                bfin == bullet_despawns_rec(bullet_hits@, s2),
                bullet_seen_rec(bullet_hits@.skip(i as int), seen@) == bullet_seen_rec(bullet_hits@, s2),
                despawns@.len() >= dub.len(),
                forall|k: int| 0 <= k < dub.len() ==> #[trigger] despawns@[k] == dub[k],
                despawns@.skip(dub.len() as int)
                    + bullet_despawns_rec(bullet_hits@.skip(i as int), seen@) == bfin,
            decreases bullet_hits@.len() - i,
        {
            let e = bullet_hits[i];
            proof {
                assert(bullet_hits@.skip(i as int)[0] == e);
                assert(bullet_hits@.skip(i as int).drop_first() =~= bullet_hits@.skip(i as int + 1));
            }
            if !contains_id(&seen, e.hittable) {
                let ghost dbefore = despawns@;
                despawns.push(e.hittable);
                seen.push(e.hittable);
                proof {
                    assert(despawns@ =~= dbefore.push(e.hittable));
                    assert(despawns@.skip(dub.len() as int)
                        =~= dbefore.skip(dub.len() as int).push(e.hittable));
                    assert(dbefore.skip(dub.len() as int).push(e.hittable)
                        + bullet_despawns_rec(bullet_hits@.skip(i as int + 1), seen@)
                        =~= dbefore.skip(dub.len() as int)
                            + (seq![e.hittable]
                                + bullet_despawns_rec(bullet_hits@.skip(i as int + 1), seen@)));
                }
            }
            i = i + 1;
        }
        proof {
            assert(bullet_hits@.skip(bullet_hits@.len() as int) =~= Seq::<HitEvent>::empty());
            assert(despawns@.skip(dub.len() as int) + Seq::<u64>::empty()
                =~= despawns@.skip(dub.len() as int));
            assert(despawns@ =~= dub + despawns@.skip(dub.len() as int));
            assert(dub =~= d1 + d2);
            assert((d1 + d2) + bfin =~= d1 + d2 + bfin);
            assert(ufo_hit_centers(bullet_hits@, asteroid_hits@, ents) == c1 + c2);
            assert forall|k: int| 0 <= k < particles@.len() implies particle_ok(
                #[trigger] particles@[k],
                (c1 + c2)[k],
                BURST_SPEED_LO,
                BURST_SPEED_HI,
                BURST_EXPIRE_LO,
                BURST_EXPIRE_HI,
            ) by {
                if k < c1.len() {
                    assert((c1 + c2)[k] == c1[k]);
                } else {
                    assert((c1 + c2)[k] == c2[k - c1.len()]);
                }
            }
        }
        Reaction { despawns, ship_deaths: Vec::new(), spawns: Vec::new(), particles }
    }
}

/// Split conservation, for one fresh event whose asteroid record
/// resolves: the asteroid and the bullet are both removed, exactly
/// once each; a big asteroid owes exactly 3 fragments drawn from the
/// medium range, a medium one exactly 2 from the small range, a small
/// one none; and the burst owes 12 particles per tier-multiplier
/// unit, all centered on the asteroid.
pub proof fn lemma_split_conservation(ents: Seq<Entity>, e: HitEvent)
    requires
        asteroid_target(ents, e.hurtable) is Some,
    ensures
        ba_despawns_rec(seq![e], Seq::<u64>::empty()) == seq![e.hurtable, e.hittable],
        ({
            let a = asteroid_target(ents, e.hurtable).unwrap();
            let frags = ba_frags_rec(seq![e], Seq::<u64>::empty(), ents);
            &&& frags.len() == split_count(size_class(a.radius))
            &&& (BIG_LO <= a.radius < BIG_HI ==> frags.len() == 3)
            &&& (MEDIUM_LO <= a.radius < MEDIUM_HI ==> frags.len() == 2)
            &&& (size_class(a.radius) is Small ==> frags.len() == 0)
            &&& forall|k: int| 0 <= k < frags.len() ==> #[trigger] frags[k] == (FragOb {
                pos: a.pos,
                lo: child_lo(size_class(a.radius)),
                hi: child_hi(size_class(a.radius)),
            })
        }),
        ({
            let a = asteroid_target(ents, e.hurtable).unwrap();
            let centers = ba_centers_rec(seq![e], Seq::<u64>::empty(), ents);
            &&& centers.len() == 12 * burst_mult(size_class(a.radius))
            &&& forall|k: int| 0 <= k < centers.len() ==> #[trigger] centers[k] == a.pos
        }),
{
    let evs: Seq<HitEvent> = seq![e];
    let none: Seq<u64> = Seq::<u64>::empty();
    let a = asteroid_target(ents, e.hurtable).unwrap();
    assert(evs[0] == e);
    assert(!pair_blocked(none, e));
    assert(evs.drop_first() =~= Seq::<HitEvent>::empty());
    let acc1 = none.push(e.hurtable).push(e.hittable);
    assert(ba_despawns_rec(evs, none) == ba_despawns_rec(Seq::<HitEvent>::empty(), acc1));
    assert(ba_despawns_rec(evs, none) =~= seq![e.hurtable, e.hittable]);
    assert(ba_frags_rec(evs, none, ents)
        =~= frag_obs_of(a) + ba_frags_rec(Seq::<HitEvent>::empty(), acc1, ents));
    assert(ba_frags_rec(evs, none, ents) =~= frag_obs_of(a));
    assert(ba_centers_rec(evs, none, ents)
        =~= burst_centers_of(a.pos, burst_mult(size_class(a.radius)))
            + ba_centers_rec(Seq::<HitEvent>::empty(), acc1, ents));
    assert(ba_centers_rec(evs, none, ents)
        =~= burst_centers_of(a.pos, burst_mult(size_class(a.radius))));
}

/// Burst centers the saucer reactor owes across its two buses.
pub open spec fn ufo_hit_centers(
    bullet_hits: Seq<HitEvent>,
    asteroid_hits: Seq<HitEvent>,
    ents: Seq<Entity>,
) -> Seq<Vec2> {
    let s0 = Seq::<u64>::empty();
    let s1 = seen_rec(bullet_hits, s0);
    ufo_centers_rec(bullet_hits, s0, ents) + ufo_centers_rec(asteroid_hits, s1, ents)
}

/// Everything the saucer reactor promises of its output: saucers of
/// the bullet bus then the asteroid bus despawn once each, then the
/// triggering bullets not already removed, with a 12 x 5 burst per
/// saucer whose record was found.
pub open spec fn ufo_reaction_ok(
    r: Reaction,
    bullet_hits: Seq<HitEvent>,
    asteroid_hits: Seq<HitEvent>,
    ents: Seq<Entity>,
) -> bool {
    &&& r.wf()
    &&& r.ship_deaths@ == Seq::<u64>::empty()
    &&& r.spawns@ == Seq::<SpawnRequest>::empty()
    &&& r.despawns@ == ufo_despawns_rec(bullet_hits, Seq::<u64>::empty())
        + ufo_despawns_rec(asteroid_hits, seen_rec(bullet_hits, Seq::<u64>::empty()))
        + bullet_despawns_rec(
            bullet_hits,
            seen_rec(asteroid_hits, seen_rec(bullet_hits, Seq::<u64>::empty())),
        )
    &&& r.particles@.len() == ufo_hit_centers(bullet_hits, asteroid_hits, ents).len()
    &&& forall|k: int| 0 <= k < r.particles@.len() ==> particle_ok(
        #[trigger] r.particles@[k],
        ufo_hit_centers(bullet_hits, asteroid_hits, ents)[k],
        BURST_SPEED_LO,
        BURST_SPEED_HI,
        BURST_EXPIRE_LO,
        BURST_EXPIRE_HI,
    )
}

/// Burst centers the ship reactor owes across its three buses.
pub open spec fn ship_hit_centers(
    asteroid_hits: Seq<HitEvent>,
    bullet_hits: Seq<HitEvent>,
    ufo_hits: Seq<HitEvent>,
    ents: Seq<Entity>,
) -> Seq<Vec2> {
    let s0 = Seq::<u64>::empty();
    let s1 = seen_rec(asteroid_hits, s0);
    let s2 = seen_rec(bullet_hits, s1);
    ship_centers_rec(asteroid_hits, s0, ents) + ship_centers_rec(bullet_hits, s1, ents)
        + ship_centers_rec(ufo_hits, s2, ents)
}

/// Everything the ship reactor promises of its output: one death per
/// ship named by a fresh, resolved event across the three buses, and
/// a 12 x 6 burst per death.
pub open spec fn ship_reaction_ok(
    r: Reaction,
    asteroid_hits: Seq<HitEvent>,
    bullet_hits: Seq<HitEvent>,
    ufo_hits: Seq<HitEvent>,
    ents: Seq<Entity>,
) -> bool {
    &&& r.wf()
    &&& r.despawns@ == Seq::<u64>::empty()
    &&& r.spawns@ == Seq::<SpawnRequest>::empty()
    &&& r.ship_deaths@ == ship_deaths_rec(asteroid_hits, Seq::<u64>::empty(), ents)
        + ship_deaths_rec(bullet_hits, seen_rec(asteroid_hits, Seq::<u64>::empty()), ents)
        + ship_deaths_rec(
            ufo_hits,
            seen_rec(bullet_hits, seen_rec(asteroid_hits, Seq::<u64>::empty())),
            ents,
        )
    &&& r.particles@.len() == ship_hit_centers(asteroid_hits, bullet_hits, ufo_hits, ents).len()
    &&& forall|k: int| 0 <= k < r.particles@.len() ==> particle_ok(
        #[trigger] r.particles@[k],
        ship_hit_centers(asteroid_hits, bullet_hits, ufo_hits, ents)[k],
        SHIP_BURST_SPEED_LO,
        SHIP_BURST_SPEED_HI,
        SHIP_BURST_EXPIRE_LO,
        SHIP_BURST_EXPIRE_HI,
    )
}

} // verus!

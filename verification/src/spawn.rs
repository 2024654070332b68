//! Spawn policy: the timed off-screen asteroid requests, the second
//! phase that turns queued requests into moving asteroids with
//! randomized outlines, and the timed saucer spawn.  Every random
//! draw is threaded through the explicit generator handle, and each
//! contract states what holds of every outcome.

use vstd::prelude::*;
use rand::rngs::SmallRng;
use crate::geom::{Vec2, vec_in, dist2, isqrt_spec, scale_frac_spec, ARENA_LIMIT};
use crate::rng::{range_u64, range_i64, chance};
use crate::state::{UfoState, Weapon};
use crate::world::{World, Entity, Category, SpawnRequest};
use crate::react::{
    SMALL_LO, SMALL_HI, MEDIUM_LO, MEDIUM_HI, BIG_LO, BIG_HI, SizeClass, classify, size_class,
};

verus! {

/// A request the timed spawn emits: a tier-ranged radius, positioned
/// just outside a random edge of the play rectangle, offset by twice
/// the radius.
pub open spec fn edge_request(req: SpawnRequest, hw: i64, hh: i64) -> bool {
    &&& (SMALL_LO <= req.radius < SMALL_HI || MEDIUM_LO <= req.radius < MEDIUM_HI
        || BIG_LO <= req.radius < BIG_HI)
    &&& ((-hw <= req.pos.x < hw
            && (req.pos.y == hh + 2 * req.radius || req.pos.y == -(hh + 2 * req.radius)))
        || ((req.pos.x == hw + 2 * req.radius || req.pos.x == -(hw + 2 * req.radius))
            && -hh <= req.pos.y < hh))
}

/// The velocity that aims a spawn at a target point with speed `s`:
/// the displacement rescaled to `s` by its own length, rounded toward
/// zero, and zero when the points coincide.
pub open spec fn aim_vel_spec(target: Vec2, from: Vec2, s: u64) -> Vec2 {
    let len = isqrt_spec(dist2(target, from));
    if len == 0 {
        Vec2 { x: 0, y: 0 }
    } else {
        Vec2 {
            x: scale_frac_spec(target.x - from.x, s as int, len) as i64,
            y: scale_frac_spec(target.y - from.y, s as int, len) as i64,
        }
    }
}

/// The record a generated asteroid gets: a standard asteroid record
/// at the requested position and radius, whose velocity aims at some
/// point of the visible rectangle with a speed drawn from the tier's
/// range - smaller rocks fly faster.
pub open spec fn generated_ok(e: Entity, req: SpawnRequest, id: u64, hw: int, hh: int) -> bool {
    &&& e == World::asteroid_entity(id, req.pos, req.radius, e.vel)
    &&& -100 <= e.vel.x <= 100
    &&& -100 <= e.vel.y <= 100
    &&& exists|q: Vec2, s: u64|
        {
            &&& -hw <= q.x < hw
            &&& -hh <= q.y < hh
            &&& gen_speed_lo(size_class(req.radius)) <= s < gen_speed_hi(size_class(req.radius))
            &&& e.vel == #[trigger] aim_vel_spec(q, req.pos, s)
        }
}

/// The outline a generated asteroid gets: 6 to 11 vertices, each at a
/// radius jittered between 50% and 120% of the nominal radius.
pub open spec fn outline_ok(radii: Seq<u64>, nominal: u64) -> bool {
    &&& 6 <= radii.len() < 12
    &&& forall|t: int| 0 <= t < radii.len()
        ==> nominal / 2 <= #[trigger] radii[t] < nominal * 6 / 5
}

/// The randomized outline of one generated asteroid, for the host's
/// renderer: the polar radii of its polygon, vertex by vertex.
#[derive(Debug)]
pub struct AsteroidVisual {
    pub id: u64,
    pub radii: Vec<u64>,
}

/// What the generation phase does to a world: the queue emptied, one
/// asteroid appended per queued request in order, each as
/// `generated_ok` lays down under consecutive fresh identities, with
/// one well-formed outline per asteroid for the renderer.
pub open spec fn gen_rel(pre: World, post: World, visuals: Seq<AsteroidVisual>) -> bool {
    &&& post.pending@.len() == 0
    &&& post.entities@.len() == pre.entities@.len() + pre.pending@.len()
    &&& forall|t: int| 0 <= t < pre.entities@.len()
        ==> post.entities@[t] == #[trigger] pre.entities@[t]
    &&& forall|j: int| 0 <= j < pre.pending@.len()
        ==> generated_ok(
            #[trigger] post.entities@[pre.entities@.len() + j],
            pre.pending@[j],
            (pre.next_id + j) as u64,
            pre.half_width as int,
            pre.half_height as int,
        )
    &&& post.next_id == pre.next_id + pre.pending@.len()
    &&& post.half_width == pre.half_width
    &&& post.half_height == pre.half_height
    &&& visuals.len() == pre.pending@.len()
    &&& forall|j: int| 0 <= j < visuals.len()
        ==> (#[trigger] visuals[j].id == (pre.next_id + j) as u64)
            && outline_ok(visuals[j].radii@, pre.pending@[j].radius)
}

/// The speed range a generated asteroid's velocity is drawn from, by
/// tier: smaller rocks fly faster.
pub open spec fn gen_speed_lo(c: SizeClass) -> u64 {
    match c {
        SizeClass::Big => 30,
        SizeClass::Medium => 60,
        SizeClass::Small => 80,
    }
}

pub open spec fn gen_speed_hi(c: SizeClass) -> u64 {
    match c {
        SizeClass::Big => 60,
        SizeClass::Medium => 80,
        SizeClass::Small => 100,
    }
}

pub fn gen_speed_range(c: SizeClass) -> (r: (u64, u64))
    ensures
        r.0 == gen_speed_lo(c),
        r.1 == gen_speed_hi(c),
        30 <= r.0 < r.1 <= 100,
{
    match c {
        SizeClass::Big => (30, 60),
        SizeClass::Medium => (60, 80),
        SizeClass::Small => (80, 100),
    }
}

impl World {
    /// The timed asteroid spawn: with chance one in three, queues one
    /// spawn request of a random tier just outside a random edge.
    /// Nothing else changes either way.
    pub fn asteroid_spawn_tick(&mut self, rng: &mut SmallRng)
        requires
            old(self).wf(),
        ensures
            final(self).wf(),
            final(self).entities == old(self).entities,
            final(self).next_id == old(self).next_id,
            final(self).half_width == old(self).half_width,
            final(self).half_height == old(self).half_height,
            final(self).pending@ == old(self).pending@
                || (final(self).pending@.len() == old(self).pending@.len() + 1
                    && final(self).pending@.subrange(0, old(self).pending@.len() as int)
                        == old(self).pending@
                    && edge_request(
                        final(self).pending@.last(),
                        old(self).half_width,
                        old(self).half_height,
                    )),
    {
        if !chance(rng, 3) {
            return ;
        }
        let hw = self.half_width;
        let hh = self.half_height;
        let x: i64 = range_i64(rng, -hw, hw);
        let y: i64 = range_i64(rng, -hh, hh);
        let roll = range_u64(rng, 1, 4);
        let radius: u64 = if roll == 3 {
            range_u64(rng, BIG_LO, BIG_HI)
        } else if roll == 2 {
            range_u64(rng, MEDIUM_LO, MEDIUM_HI)
        } else {
            range_u64(rng, SMALL_LO, SMALL_HI)
        };
        let c: i64 = 2 * (radius as i64);
        let pos: Vec2 = if chance(rng, 2) {
            Vec2 { x, y: if y > 0 { hh + c } else { -hh - c } }
        } else {
            Vec2 { x: if x > 0 { hw + c } else { -hw - c }, y }
        };
        let req = SpawnRequest { pos, radius };
        let ghost before = self.pending@;
        self.pending.push(req);
        proof {
            assert(self.pending@.subrange(0, before.len() as int) =~= before);
            assert(vec_in(req.pos, ARENA_LIMIT));
            assert(edge_request(req, hw, hh));
        }
    }

    /// The generation phase: resolves every queued spawn request into
    /// a live asteroid with a velocity aimed at a random point of the
    /// visible area, scaled by tier, and a randomized outline, which
    /// is returned for the renderer.  Runs within the same frame as
    /// the requests it consumes.
    pub fn asteroid_generation_pass(&mut self, rng: &mut SmallRng) -> (visuals: Vec<AsteroidVisual>)
        requires
            old(self).wf(),
            old(self).next_id + old(self).pending@.len() <= u64::MAX,
        ensures
            final(self).wf(),
            gen_rel(*old(self), *final(self), visuals@),
    {
        let ghost orig = self.entities@;
        let ghost reqs = self.pending@;
        let mut queue: Vec<SpawnRequest> = Vec::new();
        core::mem::swap(&mut queue, &mut self.pending);
        let mut visuals: Vec<AsteroidVisual> = Vec::new();
        let hw = self.half_width;
        let hh = self.half_height;
        let count = queue.len();
        let mut j: usize = 0;
        while j < count
            invariant
                j <= count,
                count == reqs.len(),
                queue@ == reqs,
                orig == old(self).entities@,
                old(self).next_id + reqs.len() <= u64::MAX,
                forall|t: int| 0 <= t < reqs.len() ==> (#[trigger] reqs[t]).wf(),
                hw == old(self).half_width,
                hh == old(self).half_height,
                crate::boundary::half_extent_ok(hw),
                crate::boundary::half_extent_ok(hh),
                self.entities@.len() == orig.len() + j,
                forall|t: int| 0 <= t < orig.len()
                    ==> self.entities@[t] == #[trigger] orig[t],
                forall|t: int| 0 <= t < orig.len() ==> (#[trigger] orig[t]).wf(),
                forall|t: int| 0 <= t < j
                    ==> generated_ok(
                        #[trigger] self.entities@[orig.len() + t],
                        reqs[t],
                        (old(self).next_id + t) as u64,
                        hw as int,
                        hh as int,
                    ),
                forall|t: int| 0 <= t < self.entities@.len()
                    ==> (#[trigger] self.entities@[t]).wf(),
                forall|a: int, b: int| 0 <= a < b < self.entities@.len()
                    ==> (#[trigger] self.entities@[a]).id != (#[trigger] self.entities@[b]).id,
                forall|t: int| 0 <= t < self.entities@.len()
                    ==> (#[trigger] self.entities@[t]).id < self.next_id,
                self.next_id == old(self).next_id + j,
                self.pending@.len() == 0,
                self.half_width == old(self).half_width,
                self.half_height == old(self).half_height,
                visuals@.len() == j,
                forall|t: int| 0 <= t < j
                    ==> (#[trigger] visuals@[t].id == (old(self).next_id + t) as u64)
                        && outline_ok(visuals@[t].radii@, reqs[t].radius),
            decreases count - j,
        {
            let req = queue[j];
            proof {
                assert(req.wf());
            }
            // aim the velocity at a random point of the visible area
            let tx: i64 = range_i64(rng, -hw, hw);
            let ty: i64 = range_i64(rng, -hh, hh);
            let target = Vec2 { x: tx, y: ty };
            let dx: i64 = target.x - req.pos.x;
            let dy: i64 = target.y - req.pos.y;
            let n2: i64 = crate::geom::dist2_exec(target, req.pos);
            let len: u64 = crate::geom::isqrt(n2 as u64);
            let (slo, shi) = gen_speed_range(classify(req.radius));
            let speed = range_u64(rng, slo, shi);
            let vel: Vec2 = if len == 0 {
                Vec2 { x: 0, y: 0 }
            } else {
                proof {
                    assert(dx * dx <= n2 && dy * dy <= n2) by (nonlinear_arith)
                        requires n2 == dx * dx + dy * dy;
                    crate::geom::lemma_component_below_root(dx as int, len as int, n2 as int);
                    crate::geom::lemma_component_below_root(dy as int, len as int, n2 as int);
                }
                Vec2 {
                    x: crate::geom::scale_frac(dx, speed, len),
                    y: crate::geom::scale_frac(dy, speed, len),
                }
            };
            proof {
                assert(len == isqrt_spec(dist2(target, req.pos)));
                assert(vel == aim_vel_spec(target, req.pos, speed));
            }
            // randomized outline: 6-11 vertices, radii 50%-120%
            let sides = range_u64(rng, 6, 12);
            let rlo: u64 = req.radius / 2;
            let rhi: u64 = req.radius * 6 / 5;
            proof {
                vstd::arithmetic::div_mod::lemma_div_is_ordered(
                    (req.radius * 5) as int, (req.radius * 6) as int, 5);
                vstd::arithmetic::div_mod::lemma_div_by_multiple(req.radius as int, 5);
                assert(req.radius * 5 / 5 == req.radius);
                assert(rhi >= req.radius);
                assert(rlo < rhi);
            }
            let mut radii: Vec<u64> = Vec::new();
            let mut v: u64 = 0;
            while v < sides
                invariant
                    v <= sides,
                    6 <= sides < 12,
                    rlo < rhi,
                    rlo == req.radius / 2,
                    rhi == req.radius * 6 / 5,
                    radii@.len() == v,
                    forall|t: int| 0 <= t < radii@.len()
                        ==> req.radius / 2 <= #[trigger] radii@[t] < req.radius * 6 / 5,
                decreases sides - v,
            {
                radii.push(range_u64(rng, rlo, rhi));
                v = v + 1;
            }
            let id = self.next_id;
            self.next_id = self.next_id + 1;
            let e = Entity {
                collidable: true,
                removal: true,
                vel,
                ..crate::world::blank_entity(id, Category::Asteroid, req.pos, req.radius)
            };
            self.entities.push(e);
            visuals.push(AsteroidVisual { id, radii });
            proof {
                assert(e == World::asteroid_entity(id, req.pos, req.radius, e.vel));
                assert(-(hw as int) <= target.x < hw as int
                    && -(hh as int) <= target.y < hh as int
                    && gen_speed_lo(size_class(req.radius)) <= speed
                        < gen_speed_hi(size_class(req.radius))
                    && e.vel == aim_vel_spec(target, req.pos, speed));
                assert(generated_ok(e, reqs[j as int], id, hw as int, hh as int));
            }
            j = j + 1;
        }
        visuals
    }

    /// The timed saucer spawn: with chance one in ten, spawns one
    /// saucer just outside a random side edge, vertically within the
    /// middle 80% of the height, cruising toward the visible area,
    /// armed with a randomized automatic weapon and targeting a
    /// random ship if any exists.  When the play area is so small
    /// that the middle band is empty, nothing ever spawns.
    pub fn ufo_spawn_tick(&mut self, rng: &mut SmallRng)
        requires
            old(self).wf(),
            old(self).next_id < u64::MAX,
        ensures
            final(self).wf(),
            final(self).next_id >= old(self).next_id,
            old(self).half_height * 4 / 5 < 1
                ==> final(self).entities@ == old(self).entities@,
            final(self).pending == old(self).pending,
            final(self).half_width == old(self).half_width,
            final(self).half_height == old(self).half_height,
            final(self).entities@ == old(self).entities@
                || (final(self).entities@.len() == old(self).entities@.len() + 1
                    && final(self).entities@.subrange(0, old(self).entities@.len() as int)
                        == old(self).entities@
                    && ufo_spawn_ok(
                        final(self).entities@.last(),
                        old(self).half_width,
                        old(self).half_height,
                    )),
    {
        if !chance(rng, 10) {
            return ;
        }
        let hw = self.half_width;
        let hh = self.half_height;
        let h2: i64 = hh * 4 / 5;
        if h2 < 1 {
            return ;
        }
        let y: i64 = range_i64(rng, -h2, h2);
        let on_right = chance(rng, 2);
        let c: i64 = 30;
        let pos = Vec2 { x: if on_right { hw + c } else { -hw - c }, y };
        let secs = range_u64(rng, 1, 5);
        let state = UfoState::Alive { remaining: secs * 1000 };
        proof {
            assert(1000 <= secs * 1000 < 5000) by (nonlinear_arith)
                requires 1 <= secs < 5;
        }
        let period = range_u64(rng, 1000, 3000);
        let force = range_u64(rng, 300, 500);
        let weapon = Weapon { cooldown: period, period, force, triggered: true, automatic: true };
        let speed: i64 = range_i64(rng, 100, 200);
        let vel = Vec2 { x: if on_right { -speed } else { speed }, y: 0 };
        let ships = self.all_ships();
        let target: Option<u64> = if ships.len() > 0 {
            let pick = range_u64(rng, 0, ships.len() as u64);
            let t = ships[pick as usize];
            proof {
                assert(crate::world::all_ship_ids(self.entities@).contains(t)) by {
                    assert(crate::world::all_ship_ids(self.entities@)[pick as int] == t);
                }
            }
            Some(t)
        } else {
            None
        };
        proof {
            assert(vec_in(pos, ARENA_LIMIT));
        }
        let ghost before = self.entities@;
        let _ = self.spawn_ufo(pos, state, weapon, vel, target);
        proof {
            assert(self.entities@.subrange(0, before.len() as int) =~= before);
            assert(ufo_spawn_ok(self.entities@.last(), hw, hh));
        }
    }
}

/// What a freshly spawned saucer looks like: a standard saucer record
/// just outside a side edge, within the middle 80% of the height,
/// cruising horizontally toward the visible area at 100-200 units,
/// alive for 1-5 seconds, with an automatic triggered weapon of force
/// 300-500 and period 1-3 seconds.
pub open spec fn ufo_spawn_ok(e: Entity, hw: i64, hh: i64) -> bool {
    &&& e == World::ufo_entity(e.id, e.pos, e.ufo.unwrap(), e.weapon.unwrap(), e.vel, e.target)
    &&& (e.pos.x == hw + 30 || e.pos.x == -(hw + 30))
    &&& -(hh * 4 / 5) <= e.pos.y < hh * 4 / 5
    &&& match e.ufo {
        Some(UfoState::Alive { remaining }) => 1000 <= remaining < 5000,
        _ => false,
    }
    &&& match e.weapon {
        Some(w) => {
            &&& 300 <= w.force < 500
            &&& 1000 <= w.period < 3000
            &&& w.cooldown == w.period
            &&& w.triggered
            &&& w.automatic
        },
        None => false,
    }
    &&& e.vel.y == 0
    &&& (if e.pos.x > 0 { -200 < e.vel.x <= -100 } else { 100 <= e.vel.x < 200 })
}

} // verus!

//! Pairwise collision detection and the per-frame hit-event bus.
//!
//! The detector scans one category's colliders against another's and
//! reports every strictly intersecting pair, outer loop over the
//! hittable set, inner loop over the hurtable set.  Events live in a
//! bus that one reactor drains exactly once per frame.

use vstd::prelude::*;
use crate::geom::{Vec2, circles_hit, circles_intersect, vec_in, POS_LIMIT, RADIUS_LIMIT};

verus! {

/// One entity's collision snapshot: identity, center and radius.
#[derive(Clone, Copy, Debug, PartialEq, Eq, Structural)]
pub struct Collider {
    pub id: u64,
    pub pos: Vec2,
    pub radius: u64,
}

impl Collider {
    pub open spec fn wf(self) -> bool {
        vec_in(self.pos, POS_LIMIT) && self.radius <= RADIUS_LIMIT
    }
}

/// A detected intersection between one hittable and one hurtable entity.
#[derive(Clone, Copy, Debug, PartialEq, Eq, Structural)]
pub struct HitEvent {
    pub hittable: u64,
    pub hurtable: u64,
}

impl HitEvent {
    /// The entity in the hitting role of the pair.
    pub fn hittable(&self) -> (r: u64)
        ensures
            r == self.hittable,
    {
        self.hittable
    }

    /// The entity in the hurt role of the pair.
    pub fn hurtable(&self) -> (r: u64)
        ensures
            r == self.hurtable,
    {
        self.hurtable
    }

    pub fn new(hittable: u64, hurtable: u64) -> (r: HitEvent)
        ensures
            r == (HitEvent { hittable, hurtable }),
    {
        HitEvent { hittable, hurtable }
    }
}

pub open spec fn event_of(a: Collider, b: Collider) -> HitEvent {
    HitEvent { hittable: a.id, hurtable: b.id }
}

pub open spec fn colliders_wf(s: Seq<Collider>) -> bool {
    forall|i: int| 0 <= i < s.len() ==> (#[trigger] s[i]).wf()
}

/// Events one hittable collider produces against a hurtable list, in
/// list order.
pub open spec fn detect_row(a: Collider, bs: Seq<Collider>) -> Seq<HitEvent>
    decreases bs.len(),
{
    if bs.len() == 0 {
        Seq::empty()
    } else {
        let head: Seq<HitEvent> = if circles_hit(a.pos, a.radius, bs[0].pos, bs[0].radius) {
            seq![event_of(a, bs[0])]
        } else {
            Seq::empty()
        };
        head + detect_row(a, bs.drop_first())
    }
}

/// All events of one category pair for the frame: outer loop over the
/// hittables, inner loop over the hurtables.
pub open spec fn detect_spec(hittables: Seq<Collider>, hurtables: Seq<Collider>) -> Seq<HitEvent>
    decreases hittables.len(),
{
    if hittables.len() == 0 {
        Seq::empty()
    } else {
        detect_row(hittables[0], hurtables) + detect_spec(hittables.drop_first(), hurtables)
    }
}

/// Reports one event per strictly intersecting pair, in detection order.
pub fn detect(hittables: &Vec<Collider>, hurtables: &Vec<Collider>) -> (out: Vec<HitEvent>)
    requires
        colliders_wf(hittables@),
        colliders_wf(hurtables@),
    ensures
        out@ == detect_spec(hittables@, hurtables@),
{
    let mut out: Vec<HitEvent> = Vec::new();
    let ghost total: Seq<HitEvent> = detect_spec(hittables@, hurtables@);
    proof {
        assert(hittables@.skip(0) =~= hittables@);
        assert(out@ + detect_spec(hittables@, hurtables@) =~= detect_spec(hittables@, hurtables@));
    }
    let mut i: usize = 0;
    while i < hittables.len()
        invariant
            i <= hittables@.len(),
            colliders_wf(hittables@),
            colliders_wf(hurtables@),
            total == detect_spec(hittables@, hurtables@),
            out@ + detect_spec(hittables@.skip(i as int), hurtables@) == total,
        decreases hittables@.len() - i,
    {
        let a: Collider = hittables[i];
        proof {
            assert(hittables@.skip(i as int).drop_first() =~= hittables@.skip(i as int + 1));
            assert(hittables@.skip(i as int)[0] == a);
            assert(detect_spec(hittables@.skip(i as int), hurtables@)
                == detect_row(a, hurtables@) + detect_spec(hittables@.skip(i as int + 1), hurtables@));
            assert(hurtables@.skip(0) =~= hurtables@);
            assert(out@ + (detect_row(a, hurtables@) + detect_spec(hittables@.skip(i as int + 1), hurtables@))
                =~= out@ + detect_row(a, hurtables@)
                    + detect_spec(hittables@.skip(i as int + 1), hurtables@));
        }
        let mut j: usize = 0;
        while j < hurtables.len()
            invariant
                j <= hurtables@.len(),
                i < hittables@.len(),
                a == hittables@[i as int],
                a.wf(),
                colliders_wf(hurtables@),
                total == detect_spec(hittables@, hurtables@),
                out@ + detect_row(a, hurtables@.skip(j as int))
                    + detect_spec(hittables@.skip(i as int + 1), hurtables@) == total,
            decreases hurtables@.len() - j,
        {
            let b: Collider = hurtables[j];
            proof {
                assert(hurtables@.skip(j as int).drop_first() =~= hurtables@.skip(j as int + 1));
                assert(hurtables@.skip(j as int)[0] == b);
            }
            let ghost before: Seq<HitEvent> = out@;
            if circles_intersect(a.pos, a.radius, b.pos, b.radius) {
                out.push(HitEvent { hittable: a.id, hurtable: b.id });
                proof {
                    assert(out@ =~= before + seq![event_of(a, b)]);
                    assert(before + detect_row(a, hurtables@.skip(j as int))
                        =~= out@ + detect_row(a, hurtables@.skip(j as int + 1)));
                }
            } else {
                proof {
                    assert(detect_row(a, hurtables@.skip(j as int))
                        =~= detect_row(a, hurtables@.skip(j as int + 1)));
                }
            }
            j = j + 1;
        }
        proof {
            assert(hurtables@.skip(hurtables@.len() as int) =~= Seq::<Collider>::empty());
            assert(out@ + detect_row(a, Seq::<Collider>::empty())
                =~= out@);
        }
        i = i + 1;
    }
    proof {
        assert(hittables@.skip(hittables@.len() as int) =~= Seq::<Collider>::empty());
        assert(out@ + detect_spec(Seq::<Collider>::empty(), hurtables@) =~= out@);
    }
    out
}

proof fn lemma_row_membership(a: Collider, bs: Seq<Collider>, e: HitEvent)
    ensures
        detect_row(a, bs).contains(e) <==> exists|j: int|
            0 <= j < bs.len() && circles_hit(a.pos, a.radius, (#[trigger] bs[j]).pos, bs[j].radius)
                && e == event_of(a, bs[j]),
    decreases bs.len(),
{
    if bs.len() == 0 {
    } else {
        lemma_row_membership(a, bs.drop_first(), e);
        let rest = bs.drop_first();
        if detect_row(a, bs).contains(e) {
            if circles_hit(a.pos, a.radius, bs[0].pos, bs[0].radius) && e == event_of(a, bs[0]) {
                assert(0 <= 0 < bs.len() && circles_hit(a.pos, a.radius, bs[0].pos, bs[0].radius)
                    && e == event_of(a, bs[0]));
            } else {
                assert(detect_row(a, rest).contains(e));
                let j = choose|j: int|
                    0 <= j < rest.len()
                        && circles_hit(a.pos, a.radius, (#[trigger] rest[j]).pos, rest[j].radius)
                        && e == event_of(a, rest[j]);
                assert(bs[j + 1] == rest[j]);
            }
        }
        if exists|j: int|
            0 <= j < bs.len() && circles_hit(a.pos, a.radius, (#[trigger] bs[j]).pos, bs[j].radius)
                && e == event_of(a, bs[j]) {
            let j = choose|j: int|
                0 <= j < bs.len()
                    && circles_hit(a.pos, a.radius, (#[trigger] bs[j]).pos, bs[j].radius)
                    && e == event_of(a, bs[j]);
            if j == 0 {
                assert(detect_row(a, bs)[0] == e);
                assert(detect_row(a, bs).contains(e));
            } else {
                assert(rest[j - 1] == bs[j]);
                assert(detect_row(a, rest).contains(e));
                let k = choose|k: int| 0 <= k < detect_row(a, rest).len()
                    && detect_row(a, rest)[k] == e;
                let head_len = detect_row(a, bs).len() - detect_row(a, rest).len();
                assert(detect_row(a, bs)[head_len + k] == e);
                assert(detect_row(a, bs).contains(e));
            }
        }
    }
}

proof fn lemma_detect_membership(hs: Seq<Collider>, bs: Seq<Collider>, e: HitEvent)
    ensures
        detect_spec(hs, bs).contains(e) <==> exists|i: int, j: int|
            0 <= i < hs.len() && 0 <= j < bs.len()
                && circles_hit((#[trigger] hs[i]).pos, hs[i].radius, (#[trigger] bs[j]).pos, bs[j].radius)
                && e == event_of(hs[i], bs[j]),
    decreases hs.len(),
{
    if hs.len() == 0 {
    } else {
        let rest = hs.drop_first();
        lemma_detect_membership(rest, bs, e);
        lemma_row_membership(hs[0], bs, e);
        let row = detect_row(hs[0], bs);
        let tail = detect_spec(rest, bs);
        if detect_spec(hs, bs).contains(e) {
            let k = choose|k: int| 0 <= k < detect_spec(hs, bs).len() && detect_spec(hs, bs)[k] == e;
            if k < row.len() {
                assert(row[k] == e);
                assert(row.contains(e));
                let j = choose|j: int|
                    0 <= j < bs.len() && circles_hit(hs[0].pos, hs[0].radius, (#[trigger] bs[j]).pos, bs[j].radius)
                        && e == event_of(hs[0], bs[j]);
                assert(0 <= 0 < hs.len() && 0 <= j < bs.len()
                    && circles_hit(hs[0].pos, hs[0].radius, bs[j].pos, bs[j].radius)
                    && e == event_of(hs[0], bs[j]));
            } else {
                assert(tail[k - row.len()] == e);
                assert(tail.contains(e));
                let (i, j): (int, int) = choose|i: int, j: int|
                    0 <= i < rest.len() && 0 <= j < bs.len()
                        && circles_hit((#[trigger] rest[i]).pos, rest[i].radius, (#[trigger] bs[j]).pos, bs[j].radius)
                        && e == event_of(rest[i], bs[j]);
                assert(hs[i + 1] == rest[i]);
            }
        }
        if exists|i: int, j: int|
            0 <= i < hs.len() && 0 <= j < bs.len()
                && circles_hit((#[trigger] hs[i]).pos, hs[i].radius, (#[trigger] bs[j]).pos, bs[j].radius)
                && e == event_of(hs[i], bs[j]) {
            let (i, j): (int, int) = choose|i: int, j: int|
                0 <= i < hs.len() && 0 <= j < bs.len()
                    && circles_hit((#[trigger] hs[i]).pos, hs[i].radius, (#[trigger] bs[j]).pos, bs[j].radius)
                    && e == event_of(hs[i], bs[j]);
            if i == 0 {
                assert(row.contains(e));
                let k = choose|k: int| 0 <= k < row.len() && row[k] == e;
                assert(detect_spec(hs, bs)[k] == e);
                assert(detect_spec(hs, bs).contains(e));
            } else {
                assert(rest[i - 1] == hs[i]);
                assert(tail.contains(e));
                let k = choose|k: int| 0 <= k < tail.len() && tail[k] == e;
                assert(detect_spec(hs, bs)[row.len() + k] == e);
                assert(detect_spec(hs, bs).contains(e));
            }
        }
    }
}

pub open spec fn unique_ids(s: Seq<Collider>) -> bool {
    forall|i: int, j: int| 0 <= i < j < s.len() ==> (#[trigger] s[i]).id != (#[trigger] s[j]).id
}

/// The detector is exact: for colliders with distinct identities, the
/// event of a pair is reported if and only if the two circles strictly
/// intersect.  In particular, circles that merely touch produce no
/// event.
pub proof fn lemma_detector_exact(hs: Seq<Collider>, bs: Seq<Collider>, i: int, j: int)
    requires
        unique_ids(hs),
        unique_ids(bs),
        0 <= i < hs.len(),
        0 <= j < bs.len(),
    ensures
        detect_spec(hs, bs).contains(event_of(hs[i], bs[j]))
            <==> circles_hit(hs[i].pos, hs[i].radius, bs[j].pos, bs[j].radius),
{
    let e = event_of(hs[i], bs[j]);
    lemma_detect_membership(hs, bs, e);
    if detect_spec(hs, bs).contains(e) {
        let (i2, j2): (int, int) = choose|i2: int, j2: int|
            0 <= i2 < hs.len() && 0 <= j2 < bs.len()
                && circles_hit((#[trigger] hs[i2]).pos, hs[i2].radius, (#[trigger] bs[j2]).pos, bs[j2].radius)
                && e == event_of(hs[i2], bs[j2]);
        if i2 != i {
            assert(hs[i2].id != hs[i].id);
            assert(false);
        }
        if j2 != j {
            assert(bs[j2].id != bs[j].id);
            assert(false);
        }
    }
}

/// Every reported event names a hittable from the first list and a
/// hurtable from the second.
pub proof fn lemma_detect_ids(hs: Seq<Collider>, bs: Seq<Collider>, e: HitEvent)
    requires
        detect_spec(hs, bs).contains(e),
    ensures
        exists|i: int| 0 <= i < hs.len() && (#[trigger] hs[i]).id == e.hittable,
        exists|j: int| 0 <= j < bs.len() && (#[trigger] bs[j]).id == e.hurtable,
{
    lemma_detect_membership(hs, bs, e);
    let (i, j): (int, int) = choose|i: int, j: int|
        0 <= i < hs.len() && 0 <= j < bs.len()
            && circles_hit((#[trigger] hs[i]).pos, hs[i].radius, (#[trigger] bs[j]).pos, bs[j].radius)
            && e == event_of(hs[i], bs[j]);
    assert(hs[i].id == e.hittable);
    assert(bs[j].id == e.hurtable);
}

/// A frame-scoped queue of hit events for one category pair.
#[derive(Debug)]
pub struct HitBus {
    events: Vec<HitEvent>,
}

impl HitBus {
    pub closed spec fn view(self) -> Seq<HitEvent> {
        self.events@
    }

    /// An empty bus.
    pub fn new() -> (r: HitBus)
        ensures
            r@ == Seq::<HitEvent>::empty(),
    {
        HitBus { events: Vec::new() }
    }

    /// Fills the bus with this frame's detector output, dropping
    /// whatever an earlier frame left unread.
    pub fn publish(&mut self, events: Vec<HitEvent>)
        ensures
            final(self)@ == events@,
    {
        self.events = events;
    }

    /// Hands out the buffered events and leaves the bus empty, so a
    /// second drain within the same frame yields nothing.
    pub fn drain(&mut self) -> (out: Vec<HitEvent>)
        ensures
            out@ == old(self)@,
            final(self)@ == Seq::<HitEvent>::empty(),
    {
        let mut taken: Vec<HitEvent> = Vec::new();
        core::mem::swap(&mut taken, &mut self.events);
        taken
    }
}

} // verus!

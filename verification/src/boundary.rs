//! Boundary policy: entities that fully leave the play rectangle, with
//! a margin of twice their radius, either wrap to the mirrored edge or
//! are removed, one axis at a time.

use vstd::prelude::*;
use crate::geom::{Vec2, HALF_LIMIT, RADIUS_LIMIT};

verus! {

pub open spec fn half_extent_ok(half: i64) -> bool {
    0 < half <= HALF_LIMIT
}

/// An entity has exited an axis when its center is more than twice its
/// radius beyond the half-extent on either side.
pub open spec fn exits_axis(c: i64, r: u64, half: i64) -> bool {
    c + 2 * r < -half || c - 2 * r > half
}

/// Where a wrapped coordinate lands: past the right edge it reappears
/// just outside the left edge, mirrored, and vice versa; a coordinate
/// still in play keeps its value.
pub open spec fn wrap_coord_spec(c: i64, r: u64, half: i64) -> i64 {
    if c + 2 * r < -half {
        (half + 2 * r) as i64
    } else if c - 2 * r > half {
        (-half - 2 * r) as i64
    } else {
        c
    }
}

/// Wraps one coordinate across the play area's edges.
pub fn wrap_coord(c: i64, r: u64, half: i64) -> (out: i64)
    requires
        half_extent_ok(half),
        r <= RADIUS_LIMIT,
        crate::geom::coord_in(c, crate::geom::POS_LIMIT),
    ensures
        out == wrap_coord_spec(c, r, half),
{
    let m: i64 = 2 * (r as i64);
    if c < -half - m {
        half + m
    } else if c > half + m {
        -half - m
    } else {
        c
    }
}

/// Wraps a position on both axes independently.
pub fn wrap_position(p: Vec2, r: u64, half_width: i64, half_height: i64) -> (out: Vec2)
    requires
        half_extent_ok(half_width),
        half_extent_ok(half_height),
        r <= RADIUS_LIMIT,
        crate::geom::vec_in(p, crate::geom::POS_LIMIT),
    ensures
        out.x == wrap_coord_spec(p.x, r, half_width),
        out.y == wrap_coord_spec(p.y, r, half_height),
{
    Vec2 { x: wrap_coord(p.x, r, half_width), y: wrap_coord(p.y, r, half_height) }
}

/// The wrap law: a center that has crossed the positive edge by more
/// than twice the radius reappears mirrored just outside the negative
/// edge, and one that has crossed the negative edge reappears just
/// outside the positive one; anything else keeps its coordinate.  The
/// other axis is never touched.
pub proof fn lemma_wrap_mirrors(c: i64, r: u64, half: i64)
    requires
        half_extent_ok(half),
        r <= RADIUS_LIMIT,
    ensures
        c - 2 * r > half ==> wrap_coord_spec(c, r, half) == -half - 2 * r,
        c + 2 * r < -half ==> wrap_coord_spec(c, r, half) == half + 2 * r,
        !exits_axis(c, r, half) ==> wrap_coord_spec(c, r, half) == c,
{
}

/// Whether the removal policy despawns an entity at this position: it
/// has fully exited on either axis.
pub open spec fn exits_play_area_spec(p: Vec2, r: u64, half_width: i64, half_height: i64) -> bool {
    exits_axis(p.x, r, half_width) || exits_axis(p.y, r, half_height)
}

/// Decides whether an entity is outside the play area with margin.
pub fn exits_play_area(p: Vec2, r: u64, half_width: i64, half_height: i64) -> (out: bool)
    requires
        half_extent_ok(half_width),
        half_extent_ok(half_height),
        r <= RADIUS_LIMIT,
        crate::geom::vec_in(p, crate::geom::POS_LIMIT),
    ensures
        out == exits_play_area_spec(p, r, half_width, half_height),
{
    let m: i64 = 2 * (r as i64);
    p.x + m < -half_width || p.x - m > half_width || p.y + m < -half_height || p.y - m > half_height
}

} // verus!

//! Integer plane geometry: positions, squared distances, integer square
//! root, and the strict circle-intersection predicate the detector uses.

use vstd::prelude::*;

verus! {

/// Largest coordinate magnitude any entity may hold.  Squared-distance
/// arithmetic on two such points stays below `i64::MAX`.
pub const POS_LIMIT: i64 = 1_000_000_000;

/// Coordinate bound for entities that can seed new spawns (ships,
/// asteroids, saucers).  The gap below `POS_LIMIT` leaves room for the
/// offsets of bullets and explosion particles placed next to them.
pub const ARENA_LIMIT: i64 = 999_000_000;

/// Largest collision radius.
pub const RADIUS_LIMIT: u64 = 100_000;

/// Largest half-extent of the play rectangle.
pub const HALF_LIMIT: i64 = 1_000_000;

/// A point or displacement of the play plane.
#[derive(Clone, Copy, Debug, PartialEq, Eq, Structural)]
pub struct Vec2 {
    pub x: i64,
    pub y: i64,
}

pub open spec fn coord_in(c: i64, m: i64) -> bool {
    -m <= c <= m
}

pub open spec fn vec_in(v: Vec2, m: i64) -> bool {
    coord_in(v.x, m) && coord_in(v.y, m)
}

/// Squared Euclidean distance between two points.
pub open spec fn dist2(a: Vec2, b: Vec2) -> int {
    (a.x - b.x) * (a.x - b.x) + (a.y - b.y) * (a.y - b.y)
}

proof fn lemma_square_bound(d: int, m: int)
    by (nonlinear_arith)
    requires
        0 <= m,
        -m <= d <= m,
    ensures
        0 <= d * d <= m * m,
{
}

/// Squared distance, computed without overflow for in-range points.
pub fn dist2_exec(a: Vec2, b: Vec2) -> (r: i64)
    requires
        vec_in(a, POS_LIMIT),
        vec_in(b, POS_LIMIT),
    ensures
        r == dist2(a, b),
        0 <= r,
{
    let dx: i64 = a.x - b.x;
    let dy: i64 = a.y - b.y;
    proof {
        lemma_square_bound(dx as int, 2 * (POS_LIMIT as int));
        lemma_square_bound(dy as int, 2 * (POS_LIMIT as int));
    }
    dx * dx + dy * dy
}

/// Two circles intersect exactly when the distance of their centers is
/// strictly below the sum of their radii; tangent circles do not count.
pub open spec fn circles_hit(pa: Vec2, ra: u64, pb: Vec2, rb: u64) -> bool {
    dist2(pa, pb) < (ra + rb) * (ra + rb)
}

/// Decides strict circle intersection.
pub fn circles_intersect(pa: Vec2, ra: u64, pb: Vec2, rb: u64) -> (r: bool)
    requires
        vec_in(pa, POS_LIMIT),
        vec_in(pb, POS_LIMIT),
        ra <= RADIUS_LIMIT,
        rb <= RADIUS_LIMIT,
    ensures
        r == circles_hit(pa, ra, pb, rb),
{
    let d2: i64 = dist2_exec(pa, pb);
    let rs: u64 = ra + rb;
    proof {
        lemma_square_bound(rs as int, 2 * RADIUS_LIMIT as int);
    }
    d2 < (rs * rs) as i64
}

/// Magnitude of an integer.
pub open spec fn iabs(x: int) -> int {
    if x >= 0 {
        x
    } else {
        -x
    }
}

/// What it is to be the integer square root of `n`.
pub open spec fn isqrt_prop(n: int, r: int) -> bool {
    0 <= r && r * r <= n && n < (r + 1) * (r + 1)
}

/// The integer square root of `n`: the unique nonnegative `r` with
/// `r * r <= n < (r + 1) * (r + 1)`.
pub open spec fn isqrt_spec(n: int) -> int {
    choose|r: int| isqrt_prop(n, r)
}

/// No two values satisfy the square-root property of one `n`.
proof fn lemma_isqrt_unique(n: int, a: int, b: int)
    requires
        isqrt_prop(n, a),
        isqrt_prop(n, b),
    ensures
        a == b,
{
    if a < b {
        assert(b * b >= (a + 1) * (a + 1)) by (nonlinear_arith)
            requires a + 1 <= b, 0 < a + 1;
        assert(false);
    }
    if b < a {
        assert(a * a >= (b + 1) * (b + 1)) by (nonlinear_arith)
            requires b + 1 <= a, 0 < b + 1;
        assert(false);
    }
}

/// Integer square root: the largest `r` with `r * r <= n`.
pub fn isqrt(n: u64) -> (r: u64)
    ensures
        r * r <= n,
        n < (r + 1) * (r + 1),
        r <= 0xFFFF_FFFF,
        r == isqrt_spec(n as int),
{
    let mut lo: u64 = 0;
    let mut hi: u64 = 0xFFFF_FFFF;
    while lo < hi
        invariant
            lo <= hi,
            hi <= 0xFFFF_FFFF,
            lo * lo <= n,
            n < (hi + 1) * (hi + 1),
        decreases hi - lo,
    {
        let mid: u64 = lo + (hi - lo + 1) / 2;
        proof {
            lemma_square_bound(mid as int, 0xFFFF_FFFFint);
        }
        if mid * mid <= n {
            lo = mid;
        } else {
            hi = mid - 1;
        }
    }
    proof {
        assert(isqrt_prop(n as int, lo as int));
        assert(isqrt_prop(n as int, isqrt_spec(n as int))) by {
            assert(exists|r: int| isqrt_prop(n as int, r));
        }
        lemma_isqrt_unique(n as int, isqrt_spec(n as int), lo as int);
    }
    lo
}

/// `a * m / d` rounded toward zero, keeping the sign of `a`.
pub open spec fn scale_frac_spec(a: int, m: int, d: int) -> int
    recommends
        d > 0,
{
    if a >= 0 {
        a * m / d
    } else {
        -((-a) * m / d)
    }
}

/// `a * m / d` rounded toward zero, keeping the sign of `a`.  Because
/// `|a| <= d`, the result never exceeds `m` in magnitude: this is how
/// a displacement is rescaled to a chosen length without leaving its
/// direction's bounding box.
pub fn scale_frac(a: i64, m: u64, d: u64) -> (r: i64)
    requires
        1 <= d <= 0x1_0000_0000,
        -(d as int) <= a <= d as int,
        m <= 1_000_000,
    ensures
        r == scale_frac_spec(a as int, m as int, d as int),
        -(m as int) <= r <= m as int,
{
    let mag: u64 = if a >= 0 { a as u64 } else { (-a) as u64 };
    proof {
        assert(mag * m <= d * m && d * m == m * d && d * m <= 0x1_0000_0000 * 1_000_000int)
            by (nonlinear_arith)
            requires mag <= d, 0 <= m, m <= 1_000_000, 0 <= d <= 0x1_0000_0000;
    }
    let q: u64 = mag * m / d;
    proof {
        vstd::arithmetic::div_mod::lemma_div_is_ordered((mag * m) as int, (m * d) as int, d as int);
        vstd::arithmetic::div_mod::lemma_div_by_multiple(m as int, d as int);
        assert(q <= m);
    }
    if a >= 0 {
        q as i64
    } else {
        -(q as i64)
    }
}

/// Rescaling keeps the sign, so the magnitude of the result is the
/// rescaled magnitude.
pub proof fn lemma_scale_frac_abs(a: int, m: int, d: int)
    requires
        d > 0,
        m >= 0,
    ensures
        iabs(scale_frac_spec(a, m, d)) == iabs(a) * m / d,
{
    if a >= 0 {
        assert(a * m >= 0) by (nonlinear_arith)
            requires a >= 0, m >= 0;
        vstd::arithmetic::div_mod::lemma_div_pos_is_pos(a * m, d);
    } else {
        assert((-a) * m >= 0) by (nonlinear_arith)
            requires -a >= 0, m >= 0;
        vstd::arithmetic::div_mod::lemma_div_pos_is_pos((-a) * m, d);
    }
}

/// A direction of taxicab magnitude at least 100, rescaled by `s`
/// percent per component, keeps a taxicab magnitude of at least
/// `s - 1`: rounding toward zero loses less than one unit in all.
pub proof fn lemma_scaled_taxicab(p: int, q: int, s: int)
    requires
        p >= 0,
        q >= 0,
        p + q >= 100,
        s >= 0,
    ensures
        p * s / 100 + q * s / 100 >= s - 1,
{
    let a = p * s;
    let b = q * s;
    assert(a >= 0 && b >= 0 && a + b >= 100 * s) by (nonlinear_arith)
        requires a == p * s, b == q * s, p >= 0, q >= 0, p + q >= 100, s >= 0;
    vstd::arithmetic::div_mod::lemma_fundamental_div_mod(a, 100);
    vstd::arithmetic::div_mod::lemma_fundamental_div_mod(b, 100);
    vstd::arithmetic::div_mod::lemma_mod_bound(a, 100);
    vstd::arithmetic::div_mod::lemma_mod_bound(b, 100);
    assert(100 * (a / 100) + 100 * (b / 100) >= 100 * s - 198);
}

/// A value's magnitude never exceeds the root of its squared norm:
/// if `d * d <= n`, then `|d| <= isqrt(n)`.
pub proof fn lemma_component_below_root(d: int, r: int, n: int)
    requires
        0 <= r,
        d * d <= n,
        n < (r + 1) * (r + 1),
    ensures
        -r <= d <= r,
{
    if d > r {
        assert(d * d >= (r + 1) * (r + 1)) by (nonlinear_arith)
            requires r + 1 <= d, 0 < r + 1;
        assert(false);
    }
    if d < -r {
        assert(d * d >= (r + 1) * (r + 1)) by (nonlinear_arith)
            requires r + 1 <= -d, 0 < r + 1;
        assert(false);
    }
}

} // verus!

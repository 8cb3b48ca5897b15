//! Points in micro-degrees and the planar distances between them.

use vstd::prelude::*;

verus! {

/// Largest absolute longitude, in micro-degrees.
pub const LON_LIMIT: i64 = 180_000_000;

/// Largest absolute latitude, in micro-degrees.
pub const LAT_LIMIT: i64 = 90_000_000;

/// Stands for "no distance": the minimum over an empty set of segments.
pub const NO_DISTANCE: u64 = 0xffff_ffff_ffff_ffff;

/// A position in whole micro-degrees, `(longitude, latitude)` read as planar
/// `(x, y)`. Every value lies on the globe: `|x| <= LON_LIMIT`, `|y| <= LAT_LIMIT`.
#[derive(Clone, Copy, Debug, PartialEq, Eq, Structural)]
pub struct GeoPoint {
    pub(crate) lon: i64,
    pub(crate) lat: i64,
}

/// Whether `(x, y)` are the micro-degrees of a position on the globe.
pub open spec fn on_globe(x: int, y: int) -> bool {
    -LON_LIMIT <= x <= LON_LIMIT && -LAT_LIMIT <= y <= LAT_LIMIT
}

impl View for GeoPoint {
    type V = (int, int);

    closed spec fn view(&self) -> (int, int) {
        (self.lon as int, self.lat as int)
    }
}

impl GeoPoint {
    #[verifier::type_invariant]
    spec fn on_globe_inv(self) -> bool {
        on_globe(self.lon as int, self.lat as int)
    }

    /// The point at `lon`, `lat` micro-degrees, if that is on the globe.
    pub fn new(lon: i64, lat: i64) -> (r: Option<GeoPoint>)
        ensures
            r is Some <==> on_globe(lon as int, lat as int),
            r is Some ==> r->0@ == (lon as int, lat as int),
    {
        if -LON_LIMIT <= lon && lon <= LON_LIMIT && -LAT_LIMIT <= lat && lat <= LAT_LIMIT {
            Some(GeoPoint { lon, lat })
        } else {
            None
        }
    }

    /// Longitude in micro-degrees.
    pub fn lon(&self) -> (r: i64)
        ensures
            r == self@.0,
            on_globe(self@.0, self@.1),
    {
        proof {
            use_type_invariant(self);
        }
        self.lon
    }

    /// Latitude in micro-degrees.
    pub fn lat(&self) -> (r: i64)
        ensures
            r == self@.1,
            on_globe(self@.0, self@.1),
    {
        proof {
            use_type_invariant(self);
        }
        self.lat
    }
}

/// Squared planar distance between two coordinate pairs.
pub open spec fn dist_sq_spec(a: (int, int), b: (int, int)) -> int {
    (a.0 - b.0) * (a.0 - b.0) + (a.1 - b.1) * (a.1 - b.1)
}

/// Largest squared distance between two points on the globe.
pub const MAX_DIST_SQ: u64 = 162_000_000_000_000_000;

/// Largest distance between two points on the globe, rounded down.
pub const MAX_DIST: u64 = 402_492_235;

/// `r` is the square root of `n` rounded down.
pub open spec fn is_isqrt(n: int, r: int) -> bool {
    0 <= r && r * r <= n < (r + 1) * (r + 1)
}

/// The square root of `n` rounded down (for `n >= 0`).
pub open spec fn isqrt_spec(n: int) -> int {
    choose|r: int| is_isqrt(n, r)
}

/// A number has at most one rounded-down square root.
pub proof fn lemma_isqrt_unique(n: int, r1: int, r2: int)
    requires
        is_isqrt(n, r1),
        is_isqrt(n, r2),
    ensures
        r1 == r2,
{
    if r1 < r2 {
        assert((r1 + 1) * (r1 + 1) <= r2 * r2) by (nonlinear_arith)
            requires
                0 <= r1,
                r1 + 1 <= r2,
        ;
    } else if r2 < r1 {
        assert((r2 + 1) * (r2 + 1) <= r1 * r1) by (nonlinear_arith)
            requires
                0 <= r2,
                r2 + 1 <= r1,
        ;
    }
}

/// Square root rounded down.
pub fn isqrt(n: u64) -> (r: u64)
    ensures
        is_isqrt(n as int, r as int),
        r as int == isqrt_spec(n as int),
        r < 0x1_0000_0000,
{
    let mut lo: u64 = 0;
    let mut hi: u64 = 0x1_0000_0000;
    while hi - lo > 1
        invariant
            lo < hi <= 0x1_0000_0000,
            lo * lo <= n,
            n < hi * hi,
        decreases hi - lo,
    {
        let mid: u64 = lo + (hi - lo) / 2;
        assert(mid * mid < 0x1_0000_0000 * 0x1_0000_0000) by (nonlinear_arith)
            requires
                0 <= mid < 0x1_0000_0000,
        ;
        if mid * mid <= n {
            lo = mid;
        } else {
            hi = mid;
        }
    }
    proof {
        assert(hi == lo + 1);
        assert(is_isqrt(n as int, lo as int));
        let c = isqrt_spec(n as int);
        assert(is_isqrt(n as int, c));
        lemma_isqrt_unique(n as int, lo as int, c);
    }
    lo
}

/// Squared planar distance between two points.
pub fn dist_sq(a: GeoPoint, b: GeoPoint) -> (r: u64)
    ensures
        r == dist_sq_spec(a@, b@),
        r <= MAX_DIST_SQ,
{
    let dx: i64 = a.lon() - b.lon();
    let dy: i64 = a.lat() - b.lat();
    assert(0 <= dx * dx <= 129_600_000_000_000_000) by (nonlinear_arith)
        requires
            -360_000_000 <= dx <= 360_000_000,
    ;
    assert(0 <= dy * dy <= 32_400_000_000_000_000) by (nonlinear_arith)
        requires
            -180_000_000 <= dy <= 180_000_000,
    ;
    (dx * dx + dy * dy) as u64
}

/// Planar distance between two coordinate pairs, rounded down.
pub open spec fn distance_spec(a: (int, int), b: (int, int)) -> int {
    isqrt_spec(dist_sq_spec(a, b))
}

/// Planar distance between two points, rounded down to whole micro-degrees.
pub fn distance(a: GeoPoint, b: GeoPoint) -> (r: u64)
    ensures
        r == distance_spec(a@, b@),
        r <= MAX_DIST,
{
    let d2: u64 = dist_sq(a, b);
    let r: u64 = isqrt(d2);
    proof {
        if r > MAX_DIST {
            assert((MAX_DIST + 1) * (MAX_DIST + 1) <= r * r) by (nonlinear_arith)
                requires
                    r >= MAX_DIST + 1,
            ;
            assert((MAX_DIST + 1) * (MAX_DIST + 1) > MAX_DIST_SQ) by (nonlinear_arith);
        }
    }
    r
}

/// Squared distance from `p` to the segment from `a` to `b`, rounded down to
/// a whole number: to the nearer end where the foot of the perpendicular
/// falls outside the segment, else to that foot.
pub open spec fn segment_dist_sq_spec(p: (int, int), a: (int, int), b: (int, int)) -> int {
    let dx = b.0 - a.0;
    let dy = b.1 - a.1;
    let len_sq = dx * dx + dy * dy;
    let along = (p.0 - a.0) * dx + (p.1 - a.1) * dy;
    let across = (a.1 - p.1) * dx - (a.0 - p.0) * dy;
    if len_sq == 0 || along <= 0 {
        dist_sq_spec(p, a)
    } else if along >= len_sq {
        dist_sq_spec(p, b)
    } else {
        (across * across) / len_sq
    }
}

/// The perpendicular offset of a point from a line never exceeds its distance
/// to a point of that line (Lagrange's identity).
proof fn lemma_across_bounded(ux: int, uy: int, vx: int, vy: int)
    ensures
        (uy * vx - ux * vy) * (uy * vx - ux * vy) <= (ux * ux + uy * uy) * (vx * vx + vy * vy),
{
    let mixed_a = uy * vx;
    let mixed_b = ux * vy;
    let along_x = ux * vx;
    let along_y = uy * vy;
    let c = mixed_a - mixed_b;
    let t = along_x + along_y;
    assert(c * c == mixed_a * mixed_a - 2 * (mixed_a * mixed_b) + mixed_b * mixed_b) by (nonlinear_arith)
        requires
            c == mixed_a - mixed_b,
    ;
    assert(t * t == along_x * along_x + 2 * (along_x * along_y) + along_y * along_y) by (nonlinear_arith)
        requires
            t == along_x + along_y,
    ;
    assert(mixed_a * mixed_b == along_x * along_y) by (nonlinear_arith)
        requires
            mixed_a == uy * vx,
            mixed_b == ux * vy,
            along_x == ux * vx,
            along_y == uy * vy,
    ;
    assert(mixed_a * mixed_a == (uy * uy) * (vx * vx)) by (nonlinear_arith)
        requires
            mixed_a == uy * vx,
    ;
    assert(mixed_b * mixed_b == (ux * ux) * (vy * vy)) by (nonlinear_arith)
        requires
            mixed_b == ux * vy,
    ;
    assert(along_x * along_x == (ux * ux) * (vx * vx)) by (nonlinear_arith)
        requires
            along_x == ux * vx,
    ;
    assert(along_y * along_y == (uy * uy) * (vy * vy)) by (nonlinear_arith)
        requires
            along_y == uy * vy,
    ;
    let a2 = ux * ux;
    let b2 = uy * uy;
    let c2 = vx * vx;
    let d2 = vy * vy;
    assert((a2 + b2) * (c2 + d2) == a2 * c2 + a2 * d2 + b2 * c2 + b2 * d2) by (nonlinear_arith);
    assert(c * c + t * t == (ux * ux + uy * uy) * (vx * vx + vy * vy));
    assert(t * t >= 0) by (nonlinear_arith);
}

/// A quotient is at most `bound` when the dividend is at most `bound * d`.
proof fn lemma_quotient_bounded(n: int, d: int, bound: int)
    requires
        0 <= n <= bound * d,
        0 < d,
    ensures
        0 <= n / d <= bound,
{
    assert(0 <= n / d <= bound) by (nonlinear_arith)
        requires
            0 <= n <= bound * d,
            0 < d,
    ;
}

/// Squared distance from `p` to the segment from `a` to `b`, rounded down.
pub fn segment_dist_sq(p: GeoPoint, a: GeoPoint, b: GeoPoint) -> (r: u64)
    ensures
        r == segment_dist_sq_spec(p@, a@, b@),
        r <= MAX_DIST_SQ,
{
    let dx: i64 = b.lon() - a.lon();
    let dy: i64 = b.lat() - a.lat();
    let ux: i64 = p.lon() - a.lon();
    let uy: i64 = p.lat() - a.lat();
    assert(0 <= dx * dx <= 129_600_000_000_000_000) by (nonlinear_arith)
        requires
            -360_000_000 <= dx <= 360_000_000,
    ;
    assert(0 <= dy * dy <= 32_400_000_000_000_000) by (nonlinear_arith)
        requires
            -180_000_000 <= dy <= 180_000_000,
    ;
    assert(-129_600_000_000_000_000 <= ux * dx <= 129_600_000_000_000_000) by (nonlinear_arith)
        requires
            -360_000_000 <= dx <= 360_000_000,
            -360_000_000 <= ux <= 360_000_000,
    ;
    assert(-32_400_000_000_000_000 <= uy * dy <= 32_400_000_000_000_000) by (nonlinear_arith)
        requires
            -180_000_000 <= dy <= 180_000_000,
            -180_000_000 <= uy <= 180_000_000,
    ;
    let len_sq: i64 = dx * dx + dy * dy;
    let along: i64 = ux * dx + uy * dy;
    if len_sq == 0 || along <= 0 {
        return dist_sq(p, a);
    }
    if along >= len_sq {
        return dist_sq(p, b);
    }
    assert(-64_800_000_000_000_000 <= uy * dx <= 64_800_000_000_000_000) by (nonlinear_arith)
        requires
            -360_000_000 <= dx <= 360_000_000,
            -180_000_000 <= uy <= 180_000_000,
    ;
    assert(-64_800_000_000_000_000 <= ux * dy <= 64_800_000_000_000_000) by (nonlinear_arith)
        requires
            -180_000_000 <= dy <= 180_000_000,
            -360_000_000 <= ux <= 360_000_000,
    ;
    // the offset across the segment, with the sign dropped
    let across: i64 = ux * dy - uy * dx;
    let mag: u128 = if across < 0 {
        (-across) as u128
    } else {
        across as u128
    };
    assert(mag * mag <= 129_600_000_000_000_000 * 129_600_000_000_000_000) by (nonlinear_arith)
        requires
            0 <= mag <= 129_600_000_000_000_000,
    ;
    let q: u128 = (mag * mag) / (len_sq as u128);
    proof {
        let c = (a@.1 - p@.1) * (dx as int) - (a@.0 - p@.0) * (dy as int);
        assert(c == uy * (-dx) + ux * dy) by (nonlinear_arith)
            requires
                c == (a@.1 - p@.1) * (dx as int) - (a@.0 - p@.0) * (dy as int),
                uy == p@.1 - a@.1,
                ux == p@.0 - a@.0,
        ;
        assert(uy * (-dx) == -(uy * dx)) by (nonlinear_arith);
        assert(c == across as int);
        assert(mag * mag == c * c) by (nonlinear_arith)
            requires
                mag == c || mag == -c,
        ;
        lemma_across_bounded(ux as int, uy as int, dx as int, dy as int);
        assert((uy * dx - ux * dy) * (uy * dx - ux * dy) == c * c) by (nonlinear_arith)
            requires
                c == ux * dy - uy * dx,
        ;
        assert(dist_sq_spec(p@, a@) == ux * ux + uy * uy);
        lemma_quotient_bounded(c * c, len_sq as int, dist_sq_spec(p@, a@));
        assert(dist_sq_spec(p@, a@) <= MAX_DIST_SQ) by {
            assert(0 <= ux * ux <= 129_600_000_000_000_000) by (nonlinear_arith)
                requires
                    -360_000_000 <= ux <= 360_000_000,
            ;
            assert(0 <= uy * uy <= 32_400_000_000_000_000) by (nonlinear_arith)
                requires
                    -180_000_000 <= uy <= 180_000_000,
            ;
        }
    }
    q as u64
}

/// Least squared distance from `p` to the first `k` segments of `line`
/// (for `1 <= k < line.len()`).
pub open spec fn min_segment_dist_sq(line: Seq<(int, int)>, p: (int, int), k: int) -> int
    decreases k,
{
    if k <= 1 {
        segment_dist_sq_spec(p, line[0], line[1])
    } else {
        let rest = min_segment_dist_sq(line, p, k - 1);
        let here = segment_dist_sq_spec(p, line[k - 1], line[k]);
        if here < rest {
            here
        } else {
            rest
        }
    }
}

/// Squared distance from `p` to the polyline through `line`, rounded down:
/// nothing for no vertex, the vertex itself where there is only one, else the
/// nearest of its segments.
pub open spec fn polyline_dist_sq_spec(line: Seq<(int, int)>, p: (int, int)) -> int {
    if line.len() == 0 {
        0
    } else if line.len() == 1 {
        dist_sq_spec(p, line[0])
    } else {
        min_segment_dist_sq(line, p, line.len() - 1)
    }
}

/// The coordinate pairs of a sequence of points.
pub open spec fn coords(pts: Seq<GeoPoint>) -> Seq<(int, int)> {
    pts.map_values(|q: GeoPoint| q@)
}

/// Squared distance from `p` to the polyline through `line`, rounded down.
pub fn polyline_dist_sq(line: &Vec<GeoPoint>, p: GeoPoint) -> (r: u64)
    ensures
        r == polyline_dist_sq_spec(coords(line@), p@),
        r <= MAX_DIST_SQ,
{
    let n: usize = line.len();
    if n == 0 {
        return 0;
    }
    if n == 1 {
        return dist_sq(p, line[0]);
    }
    let mut best: u64 = segment_dist_sq(p, line[0], line[1]);
    let mut k: usize = 1;
    while k + 1 < n
        invariant
            1 <= k < n,
            n == line.len(),
            best == min_segment_dist_sq(coords(line@), p@, k as int),
            best <= MAX_DIST_SQ,
        decreases n - k,
    {
        let here: u64 = segment_dist_sq(p, line[k], line[k + 1]);
        if here < best {
            best = here;
        }
        k = k + 1;
    }
    best
}

/// Distance from `p` to the polyline through `line`, rounded down.
pub open spec fn polyline_distance_spec(line: Seq<(int, int)>, p: (int, int)) -> int {
    isqrt_spec(polyline_dist_sq_spec(line, p))
}

/// Distance from `p` to the polyline through `line`, rounded down to whole
/// micro-degrees.
pub fn polyline_distance(line: &Vec<GeoPoint>, p: GeoPoint) -> (r: u64)
    ensures
        r == polyline_distance_spec(coords(line@), p@),
        r <= MAX_DIST,
{
    let d2: u64 = polyline_dist_sq(line, p);
    let r: u64 = isqrt(d2);
    proof {
        lemma_isqrt_within_globe(d2 as int, r as int);
    }
    r
}

/// The root of a squared distance on the globe is a distance on the globe.
pub proof fn lemma_isqrt_within_globe(n: int, r: int)
    requires
        is_isqrt(n, r),
        n <= MAX_DIST_SQ,
    ensures
        r <= MAX_DIST,
{
    if r > MAX_DIST {
        assert((MAX_DIST + 1) * (MAX_DIST + 1) <= r * r) by (nonlinear_arith)
            requires
                r >= MAX_DIST + 1,
        ;
        assert((MAX_DIST + 1) * (MAX_DIST + 1) > MAX_DIST_SQ) by (nonlinear_arith);
    }
}

/// `i` is the first vertex of `line` among those nearest to `p`.
pub open spec fn is_closest_vertex(line: Seq<(int, int)>, p: (int, int), i: int) -> bool {
    &&& 0 <= i < line.len()
    &&& forall|j: int| 0 <= j < line.len() ==> dist_sq_spec(line[i], p) <= dist_sq_spec(#[trigger] line[j], p)
    &&& forall|j: int| 0 <= j < i ==> dist_sq_spec(line[i], p) < dist_sq_spec(#[trigger] line[j], p)
}

/// The first vertex of `line` among those nearest to `p`, with its squared
/// distance; nothing for a line without vertices.
pub fn closest_vertex(line: &Vec<GeoPoint>, p: GeoPoint) -> (r: Option<(usize, u64)>)
    ensures
        r is None <==> line.len() == 0,
        r matches Some(found) ==> is_closest_vertex(coords(line@), p@, found.0 as int)
            && found.1 == dist_sq_spec(line@[found.0 as int]@, p@),
{
    let n: usize = line.len();
    if n == 0 {
        return None;
    }
    let mut best: usize = 0;
    let mut best_d: u64 = dist_sq(line[0], p);
    let mut k: usize = 1;
    while k < n
        invariant
            1 <= k <= n,
            n == line.len(),
            best < k,
            best_d == dist_sq_spec(line@[best as int]@, p@),
            forall|j: int| 0 <= j < k ==> best_d <= dist_sq_spec(#[trigger] coords(line@)[j], p@),
            forall|j: int| 0 <= j < best ==> best_d < dist_sq_spec(#[trigger] coords(line@)[j], p@),
        decreases n - k,
    {
        let d: u64 = dist_sq(line[k], p);
        if d < best_d {
            best = k;
            best_d = d;
        }
        k = k + 1;
    }
    Some((best, best_d))
}

/// Whether some vertex of `line` lies within `radius` of `p`.
pub open spec fn has_vertex_within(line: Seq<(int, int)>, p: (int, int), radius: int) -> bool {
    exists|j: int| 0 <= j < line.len() && dist_sq_spec(#[trigger] line[j], p) <= radius * radius
}

/// Whether some vertex of `line` lies within `radius` of `p`.
pub fn vertex_within(line: &Vec<GeoPoint>, p: GeoPoint, radius: u64) -> (r: bool)
    ensures
        r == has_vertex_within(coords(line@), p@, radius as int),
{
    let n: usize = line.len();
    let mut k: usize = 0;
    while k < n
        invariant
            k <= n,
            n == line.len(),
            forall|j: int| 0 <= j < k ==> dist_sq_spec(#[trigger] coords(line@)[j], p@) > radius * radius,
        decreases n - k,
    {
        if within(dist_sq(line[k], p), radius) {
            assert(dist_sq_spec(coords(line@)[k as int], p@) <= radius * radius);
            return true;
        }
        k = k + 1;
    }
    false
}

/// Whether a squared distance is at most `radius` squared.
pub fn within(d_sq: u64, radius: u64) -> (r: bool)
    ensures
        r == (d_sq <= radius * radius),
{
    assert(radius * radius <= 0xffff_ffff_ffff_ffff * 0xffff_ffff_ffff_ffff) by (nonlinear_arith)
        requires
            0 <= radius <= 0xffff_ffff_ffff_ffff,
    ;
    let r2: u128 = (radius as u128) * (radius as u128);
    (d_sq as u128) <= r2
}

/// Whether a squared distance is less than `radius` squared.
pub fn strictly_within(d_sq: u64, radius: u64) -> (r: bool)
    ensures
        r == (d_sq < radius * radius),
{
    assert(radius * radius <= 0xffff_ffff_ffff_ffff * 0xffff_ffff_ffff_ffff) by (nonlinear_arith)
        requires
            0 <= radius <= 0xffff_ffff_ffff_ffff,
    ;
    let r2: u128 = (radius as u128) * (radius as u128);
    (d_sq as u128) < r2
}

/// The smallest upright rectangle around the vertices of a line.
#[derive(Clone, Copy, Debug, PartialEq, Eq, Structural)]
pub struct BoundingBox {
    pub min_lon: i64,
    pub min_lat: i64,
    pub max_lon: i64,
    pub max_lat: i64,
}

/// An upright rectangle as a mathematical value.
pub struct Extent {
    pub min_x: int,
    pub min_y: int,
    pub max_x: int,
    pub max_y: int,
}

impl View for BoundingBox {
    type V = Extent;

    open spec fn view(&self) -> Extent {
        Extent {
            min_x: self.min_lon as int,
            min_y: self.min_lat as int,
            max_x: self.max_lon as int,
            max_y: self.max_lat as int,
        }
    }
}

/// The smaller of two integers.
pub open spec fn min_int(a: int, b: int) -> int {
    if a <= b {
        a
    } else {
        b
    }
}

/// The larger of two integers.
pub open spec fn max_int(a: int, b: int) -> int {
    if a >= b {
        a
    } else {
        b
    }
}

/// The smallest upright rectangle around the vertices of `line` (which has
/// at least one).
pub open spec fn extent_of(line: Seq<(int, int)>) -> Extent
    decreases line.len(),
{
    if line.len() <= 1 {
        Extent { min_x: line[0].0, min_y: line[0].1, max_x: line[0].0, max_y: line[0].1 }
    } else {
        let rest = extent_of(line.drop_last());
        let q = line.last();
        Extent {
            min_x: min_int(rest.min_x, q.0),
            min_y: min_int(rest.min_y, q.1),
            max_x: max_int(rest.max_x, q.0),
            max_y: max_int(rest.max_y, q.1),
        }
    }
}

/// Whether two rectangles, each widened by `margin` on every side, have a
/// point in common.
pub open spec fn extents_overlap(a: Extent, b: Extent, margin: int) -> bool {
    &&& a.min_x - margin <= b.max_x + margin
    &&& b.min_x - margin <= a.max_x + margin
    &&& a.min_y - margin <= b.max_y + margin
    &&& b.min_y - margin <= a.max_y + margin
}

/// Whether the rectangles around two lines, each widened by `margin`, have
/// a point in common. A line without vertices meets nothing.
pub open spec fn may_meet(line: Seq<(int, int)>, other: Seq<(int, int)>, margin: int) -> bool {
    line.len() > 0 && other.len() > 0 && extents_overlap(extent_of(line), extent_of(other), margin)
}

/// Each vertex of a line lies in the rectangle around the line.
pub proof fn lemma_extent_holds_vertices(line: Seq<(int, int)>, i: int)
    requires
        0 <= i < line.len(),
    ensures
        extent_of(line).min_x <= line[i].0 <= extent_of(line).max_x,
        extent_of(line).min_y <= line[i].1 <= extent_of(line).max_y,
    decreases line.len(),
{
    if line.len() > 1 && i < line.len() - 1 {
        assert(line.drop_last()[i] == line[i]);
        lemma_extent_holds_vertices(line.drop_last(), i);
    }
}

/// Two lines with a vertex each less than `margin` apart may meet: pruning
/// by widened rectangles loses no pair of routes that come that near at
/// their vertices.
pub proof fn lemma_near_vertices_may_meet(
    line: Seq<(int, int)>,
    other: Seq<(int, int)>,
    i: int,
    j: int,
    margin: int,
)
    requires
        0 <= i < line.len(),
        0 <= j < other.len(),
        0 <= margin,
        dist_sq_spec(line[i], other[j]) < margin * margin,
    ensures
        may_meet(line, other, margin),
{
    lemma_extent_holds_vertices(line, i);
    lemma_extent_holds_vertices(other, j);
    let dx = line[i].0 - other[j].0;
    let dy = line[i].1 - other[j].1;
    assert(-margin < dx < margin && -margin < dy < margin) by (nonlinear_arith)
        requires
            dx * dx + dy * dy < margin * margin,
            0 <= margin,
    ;
}

/// The smallest upright rectangle around the vertices of `line`; nothing for
/// a line without vertices.
pub fn bounding_box(line: &Vec<GeoPoint>) -> (r: Option<BoundingBox>)
    ensures
        r is None <==> line.len() == 0,
        r matches Some(b) ==> b@ == extent_of(coords(line@)),
{
    let n: usize = line.len();
    if n == 0 {
        return None;
    }
    let ghost c = coords(line@);
    let mut b: BoundingBox = BoundingBox {
        min_lon: line[0].lon(),
        min_lat: line[0].lat(),
        max_lon: line[0].lon(),
        max_lat: line[0].lat(),
    };
    let mut k: usize = 1;
    assert(c.take(1).len() == 1);
    while k < n
        invariant
            1 <= k <= n,
            n == line.len(),
            c == coords(line@),
            b@ == extent_of(c.take(k as int)),
        decreases n - k,
    {
        let x: i64 = line[k].lon();
        let y: i64 = line[k].lat();
        proof {
            assert(c.take(k + 1).drop_last() == c.take(k as int));
            assert(c.take(k + 1).last() == c[k as int]);
        }
        if x < b.min_lon {
            b.min_lon = x;
        }
        if y < b.min_lat {
            b.min_lat = y;
        }
        if x > b.max_lon {
            b.max_lon = x;
        }
        if y > b.max_lat {
            b.max_lat = y;
        }
        k = k + 1;
    }
    assert(c.take(n as int) == c);
    Some(b)
}

/// Whether two boxes, each widened by `margin` on every side, have a point
/// in common.
pub fn boxes_overlap(a: &BoundingBox, b: &BoundingBox, margin: u64) -> (r: bool)
    ensures
        r == extents_overlap(a@, b@, margin as int),
{
    let m: i128 = margin as i128;
    a.min_lon as i128 - m <= b.max_lon as i128 + m && b.min_lon as i128 - m <= a.max_lon as i128 + m
        && a.min_lat as i128 - m <= b.max_lat as i128 + m && b.min_lat as i128 - m
        <= a.max_lat as i128 + m
}

/// Whether the box `b` around a line and the box around `other`, each
/// widened by `margin`, have a point in common.
pub fn box_meets(b: &BoundingBox, margin: u64, other: &Vec<GeoPoint>) -> (r: bool)
    ensures
        r == (other@.len() > 0 && extents_overlap(b@, extent_of(coords(other@)), margin as int)),
{
    match bounding_box(other) {
        Some(o) => boxes_overlap(b, &o, margin),
        None => false,
    }
}

} // verus!

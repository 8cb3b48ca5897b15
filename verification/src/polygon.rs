//! Polygons with holes: whether one contains a point, and how far a point
//! outside it is from its rings.

use vstd::prelude::*;
use geo::algorithm::contains::Contains;
use crate::geometry::{
    coords, min_int, polyline_dist_sq, polyline_dist_sq_spec,
    segment_dist_sq, segment_dist_sq_spec, GeoPoint, MAX_DIST_SQ, NO_DISTANCE,
};

verus! {

/// A polygon: an outer ring and the rings of its holes. A ring whose last
/// vertex is not its first is closed by the segment between the two.
#[derive(Debug, PartialEq, Eq)]
pub struct Polygon {
    pub exterior: Vec<GeoPoint>,
    pub interiors: Vec<Vec<GeoPoint>>,
}

/// A polygon as a mathematical value.
pub struct Shape {
    pub exterior: Seq<GeoPoint>,
    pub interiors: Seq<Seq<GeoPoint>>,
}

impl View for Polygon {
    type V = Shape;

    open spec fn view(&self) -> Shape {
        Shape { exterior: self.exterior@, interiors: self.interiors@.map_values(|h: Vec<GeoPoint>| h@) }
    }
}

/// The coordinate pairs of a list of rings.
pub open spec fn ring_coords(rings: Seq<Seq<GeoPoint>>) -> Seq<Seq<(int, int)>> {
    rings.map_values(|h: Seq<GeoPoint>| coords(h))
}

/// Whether the point `p` is in the interior of the polygon with the outer
/// ring `exterior` and the holes `interiors`: inside the outer ring, outside
/// every hole, and on no ring; decided by winding number, as the geometry
/// library does.
pub uninterp spec fn polygon_contains(
    exterior: Seq<(int, int)>,
    interiors: Seq<Seq<(int, int)>>,
    p: (int, int),
) -> bool;

/// `geo`'s `Contains<Point<i64>>` for `Polygon<i64>`, on the polygon that
/// `Polygon::new` builds from the rings: the result is the library's answer
/// for these rings and this point, which depends on nothing else.
#[verifier::external_body]
fn geo_contains(poly: &Polygon, p: GeoPoint) -> (r: bool)
    ensures
        r == polygon_contains(coords(poly@.exterior), ring_coords(poly@.interiors), p@),
{
    let ext: Vec<(i64, i64)> = poly.exterior.iter().map(|q| (q.lon, q.lat)).collect();
    let holes: Vec<geo::LineString<i64>> = poly.interiors.iter().map(
        |h| h.iter().map(|q| (q.lon, q.lat)).collect(),
    ).collect();
    geo::Polygon::new(geo::LineString::from(ext), holes).contains(&geo::Point::new(p.lon, p.lat))
}

/// Squared distance from `p` to the closed ring through `ring`, rounded
/// down; `NO_DISTANCE` for a ring without vertices.
pub open spec fn ring_dist_sq_spec(ring: Seq<(int, int)>, p: (int, int)) -> int {
    if ring.len() == 0 {
        NO_DISTANCE as int
    } else {
        min_int(polyline_dist_sq_spec(ring, p), segment_dist_sq_spec(p, ring.last(), ring[0]))
    }
}

/// Least squared distance from `p` to the first `k` of `rings`;
/// `NO_DISTANCE` where none of them has a vertex.
pub open spec fn rings_dist_sq_spec(rings: Seq<Seq<(int, int)>>, p: (int, int), k: int) -> int
    decreases k,
{
    if k <= 0 {
        NO_DISTANCE as int
    } else {
        min_int(rings_dist_sq_spec(rings, p, k - 1), ring_dist_sq_spec(rings[k - 1], p))
    }
}

/// Squared distance from `p` to the boundary of a polygon, rounded down: to
/// the nearest of its rings, wherever `p` lies; `NO_DISTANCE` where no ring
/// has a vertex.
pub open spec fn boundary_dist_sq_spec(poly: Shape, p: (int, int)) -> int {
    min_int(
        ring_dist_sq_spec(coords(poly.exterior), p),
        rings_dist_sq_spec(ring_coords(poly.interiors), p, poly.interiors.len() as int),
    )
}

/// Squared distance from `p` to the area of a polygon, rounded down: nothing
/// inside it, else the distance to its boundary.
pub open spec fn polygon_dist_sq_spec(poly: Shape, p: (int, int)) -> int {
    if polygon_contains(coords(poly.exterior), ring_coords(poly.interiors), p) {
        0
    } else {
        boundary_dist_sq_spec(poly, p)
    }
}

/// Whether `poly` contains `p`.
pub open spec fn shape_contains(poly: Shape, p: (int, int)) -> bool {
    polygon_contains(coords(poly.exterior), ring_coords(poly.interiors), p)
}

/// Squared distance from `p` to the closed ring through `ring`, rounded down.
pub fn ring_dist_sq(ring: &Vec<GeoPoint>, p: GeoPoint) -> (r: u64)
    ensures
        r == ring_dist_sq_spec(coords(ring@), p@),
        r <= MAX_DIST_SQ || r == NO_DISTANCE,
{
    let n: usize = ring.len();
    if n == 0 {
        return NO_DISTANCE;
    }
    let open: u64 = polyline_dist_sq(ring, p);
    let closing: u64 = segment_dist_sq(p, ring[n - 1], ring[0]);
    if open <= closing {
        open
    } else {
        closing
    }
}

impl Polygon {
    /// Whether `p` is in the interior of this polygon.
    pub fn contains(&self, p: GeoPoint) -> (r: bool)
        ensures
            r == shape_contains(self@, p@),
    {
        geo_contains(self, p)
    }

    /// Squared distance from `p` to the area of this polygon, given whether
    /// it contains `p`.
    pub fn dist_sq_given(&self, p: GeoPoint, inside: bool) -> (r: u64)
        ensures
            r == if inside {
                0
            } else {
                boundary_dist_sq_spec(self@, p@)
            },
            r <= MAX_DIST_SQ || r == NO_DISTANCE,
    {
        if inside {
            0
        } else {
            self.boundary_dist_sq(p)
        }
    }

    /// Squared distance from `p` to the boundary of this polygon, rounded
    /// down: to the nearest of its rings, inside the polygon as outside;
    /// `NO_DISTANCE` where no ring has a vertex.
    pub fn boundary_dist_sq(&self, p: GeoPoint) -> (r: u64)
        ensures
            r == boundary_dist_sq_spec(self@, p@),
            r <= MAX_DIST_SQ || r == NO_DISTANCE,
    {
        let mut best: u64 = NO_DISTANCE;
        let ghost rc = ring_coords(self@.interiors);
        let mut k: usize = 0;
        while k < self.interiors.len()
            invariant
                k <= self.interiors.len(),
                rc == ring_coords(self@.interiors),
                best == rings_dist_sq_spec(rc, p@, k as int),
                best <= MAX_DIST_SQ || best == NO_DISTANCE,
            decreases self.interiors.len() - k,
        {
            assert(rc[k as int] == coords(self.interiors@[k as int]@));
            let d: u64 = ring_dist_sq(&self.interiors[k], p);
            if d < best {
                best = d;
            }
            k = k + 1;
        }
        let outer: u64 = ring_dist_sq(&self.exterior, p);
        if outer <= best {
            outer
        } else {
            best
        }
    }

    /// Squared distance from `p` to the area of this polygon, rounded down:
    /// nothing inside it, else the distance to its boundary.
    pub fn dist_sq(&self, p: GeoPoint) -> (r: u64)
        ensures
            r == polygon_dist_sq_spec(self@, p@),
            r <= MAX_DIST_SQ || r == NO_DISTANCE,
    {
        let inside: bool = self.contains(p);
        self.dist_sq_given(p, inside)
    }
}

} // verus!

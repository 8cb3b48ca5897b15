//! The values that planning works on: departments, routes, stops, transfer
//! points and the plans built from them.

use vstd::prelude::*;
use crate::geometry::GeoPoint;

verus! {

/// How two routes meet at a transfer, best first.
#[derive(Debug, Clone, Copy, PartialEq, Eq, Structural)]
pub enum TransferType {
    /// The two routes share a stop.
    Direct,
    /// A stop of each route lies within the near threshold of the other.
    Near,
    /// A vertex of each route lies within the proximate threshold of the other.
    Proximate,
}

/// The kind of service a route gives.
#[derive(Debug, Clone, Copy, PartialEq, Eq, Structural)]
pub enum RouteSubtype {
    /// Within one town.
    Urban,
    /// Between towns of one department.
    Interurban,
    /// Between departments.
    Interdepartmental,
}

/// The coordinate reference system named by a feature collection.
#[derive(Debug, Clone, PartialEq, Eq)]
pub struct GeoJsonCrs {
    pub kind: String,
    pub properties: GeoJsonCrsProperties,
}

/// The properties of a coordinate reference system.
#[derive(Debug, Clone, PartialEq, Eq)]
pub struct GeoJsonCrsProperties {
    pub name: String,
}

/// A named collection of features of one kind.
#[derive(Debug, Clone, PartialEq, Eq)]
pub struct GeoJsonFeatureCollection<T> {
    pub kind: String,
    pub name: String,
    pub crs: GeoJsonCrs,
    pub features: Vec<T>,
}

/// The shape of a feature.
#[derive(Debug, Clone, PartialEq, Eq)]
#[allow(inconsistent_fields)]
pub enum GeoJsonGeometry {
    Point { coordinates: GeoPoint },
    LineString { coordinates: Vec<GeoPoint> },
    Polygon { coordinates: Vec<Vec<GeoPoint>> },
    MultiPolygon { coordinates: Vec<Vec<Vec<GeoPoint>>> },
    MultiLineString { coordinates: Vec<Vec<GeoPoint>> },
}

/// An administrative region.
#[derive(Debug, Clone, PartialEq, Eq)]
pub struct Department {
    pub name: String,
    pub geometry: GeoJsonGeometry,
}

/// What identifies and describes a route, without its shape.
#[derive(Debug, PartialEq, Eq)]
pub struct RouteProperties {
    /// The stable code: the route's identity.
    pub code: String,
    pub name: String,
    pub department: String,
    pub subtype: RouteSubtype,
}

/// A transit line.
#[derive(Debug, Clone, PartialEq, Eq)]
pub struct Route {
    pub properties: RouteProperties,
    pub geometry: GeoJsonGeometry,
}

/// A stop of one route.
#[derive(Debug, PartialEq, Eq)]
pub struct BusStop {
    pub route_code: String,
    pub location: GeoPoint,
    pub name: Option<String>,
}

/// The best place to change from one route to another.
#[derive(Debug, PartialEq, Eq)]
pub struct TransferPoint {
    pub location: GeoPoint,
    pub bus_stop: Option<BusStop>,
    /// Distance between the two routes at this point, rounded down.
    pub distance_to_route: u64,
    pub transfer_type: TransferType,
    pub from_route: String,
    /// The route changed to; none where the segment ends at the destination.
    pub to_route: Option<String>,
}

/// One route of a plan, with the point at which it is left.
#[derive(Debug, PartialEq, Eq)]
pub struct RouteSegment {
    pub route: RouteProperties,
    pub transfer_point: TransferPoint,
    pub transfer_type: TransferType,
    pub segment_distance: u64,
}

/// An itinerary: the routes to take, in order.
#[derive(Debug)]
pub struct RoutePlan {
    pub routes: Vec<RouteSegment>,
    pub total_distance: u64,
    pub transfers_count: i32,
    pub is_interdepartmental: bool,
}

/// The parameters of one query.
#[derive(Debug)]
pub struct RouteRequest {
    pub origin: GeoPoint,
    pub destination: GeoPoint,
    pub max_route_distance: u64,
    pub max_transfer_distance: u64,
    pub max_transfers: i32,
}

/// A plan as a mathematical value.
pub struct PlanView {
    pub routes: Seq<RouteSegment>,
    pub total_distance: int,
    pub transfers_count: int,
    pub is_interdepartmental: bool,
}

impl View for RoutePlan {
    type V = PlanView;

    open spec fn view(&self) -> PlanView {
        PlanView {
            routes: self.routes@,
            total_distance: self.total_distance as int,
            transfers_count: self.transfers_count as int,
            is_interdepartmental: self.is_interdepartmental,
        }
    }
}

/// A copy of an optional string.
pub fn clone_opt_string(o: &Option<String>) -> (r: Option<String>)
    ensures
        r == *o,
{
    match o {
        Some(s) => Some(s.clone()),
        None => None,
    }
}

/// A copy of a list of points.
pub fn clone_points(v: &Vec<GeoPoint>) -> (r: Vec<GeoPoint>)
    ensures
        r@ == v@,
{
    let mut out: Vec<GeoPoint> = Vec::new();
    let mut i: usize = 0;
    while i < v.len()
        invariant
            i <= v.len(),
            out@ == v@.take(i as int),
        decreases v.len() - i,
    {
        out.push(v[i]);
        assert(v@.take(i + 1) == v@.take(i as int).push(v@[i as int]));
        i = i + 1;
    }
    assert(v@.take(v.len() as int) == v@);
    out
}

impl Clone for RouteProperties {
    fn clone(&self) -> (r: Self)
        ensures
            r == *self,
    {
        RouteProperties {
            code: self.code.clone(),
            name: self.name.clone(),
            department: self.department.clone(),
            subtype: self.subtype,
        }
    }
}

impl Clone for BusStop {
    fn clone(&self) -> (r: Self)
        ensures
            r == *self,
    {
        BusStop {
            route_code: self.route_code.clone(),
            location: self.location,
            name: clone_opt_string(&self.name),
        }
    }
}

impl Clone for TransferPoint {
    fn clone(&self) -> (r: Self)
        ensures
            r == *self,
    {
        let stop: Option<BusStop> = match &self.bus_stop {
            Some(s) => Some(s.clone()),
            None => None,
        };
        TransferPoint {
            location: self.location,
            bus_stop: stop,
            distance_to_route: self.distance_to_route,
            transfer_type: self.transfer_type,
            from_route: self.from_route.clone(),
            to_route: clone_opt_string(&self.to_route),
        }
    }
}

impl Clone for RouteSegment {
    fn clone(&self) -> (r: Self)
        ensures
            r == *self,
    {
        RouteSegment {
            route: self.route.clone(),
            transfer_point: self.transfer_point.clone(),
            transfer_type: self.transfer_type,
            segment_distance: self.segment_distance,
        }
    }
}

impl Clone for RoutePlan {
    fn clone(&self) -> (r: Self)
        ensures
            r@ == self@,
    {
        let mut segs: Vec<RouteSegment> = Vec::new();
        let mut i: usize = 0;
        while i < self.routes.len()
            invariant
                i <= self.routes.len(),
                segs@ == self.routes@.take(i as int),
            decreases self.routes.len() - i,
        {
            segs.push(self.routes[i].clone());
            assert(self.routes@.take(i + 1) == self.routes@.take(i as int).push(self.routes@[i as int]));
            i = i + 1;
        }
        assert(self.routes@.take(self.routes.len() as int) == self.routes@);
        RoutePlan {
            routes: segs,
            total_distance: self.total_distance,
            transfers_count: self.transfers_count,
            is_interdepartmental: self.is_interdepartmental,
        }
    }
}

/// The sum of the distances of `segs`.
pub open spec fn sum_distances(segs: Seq<RouteSegment>) -> int
    decreases segs.len(),
{
    if segs.len() == 0 {
        0
    } else {
        sum_distances(segs.drop_last()) + segs.last().segment_distance
    }
}

/// The number of transfers in a plan of `n` segments.
pub open spec fn transfers_of(n: int) -> int {
    if n <= 0 {
        0
    } else {
        n - 1
    }
}

impl PlanView {
    /// The totals agree with the segments: the distance is their sum, and
    /// there is one transfer between each two of them.
    pub open spec fn consistent(self) -> bool {
        &&& self.total_distance == sum_distances(self.routes)
        &&& self.transfers_count == transfers_of(self.routes.len() as int)
    }
}

impl RoutePlan {
    /// The plan without segments.
    pub fn new() -> (r: Self)
        ensures
            r@.routes == Seq::<RouteSegment>::empty(),
            r@.total_distance == 0,
            r@.transfers_count == 0,
            !r@.is_interdepartmental,
            r@.consistent(),
    {
        RoutePlan {
            routes: Vec::new(),
            total_distance: 0,
            transfers_count: 0,
            is_interdepartmental: false,
        }
    }

    /// Appends `segment`, adding its distance to the total.
    pub fn add_segment(&mut self, segment: RouteSegment)
        requires
            old(self)@.total_distance + segment.segment_distance <= u64::MAX,
            old(self)@.routes.len() <= i32::MAX,
        ensures
            final(self)@.routes == old(self)@.routes.push(segment),
            final(self)@.total_distance == old(self)@.total_distance + segment.segment_distance,
            final(self)@.transfers_count == old(self)@.routes.len(),
            final(self)@.is_interdepartmental == old(self)@.is_interdepartmental,
            old(self)@.consistent() ==> final(self)@.consistent(),
    {
        self.total_distance = self.total_distance + segment.segment_distance;
        proof {
            assert(old(self)@.routes.push(segment).drop_last() == old(self)@.routes);
        }
        self.routes.push(segment);
        self.transfers_count = (self.routes.len() - 1) as i32;
    }

    /// Takes the last segment off again, with its distance.
    pub fn remove_last_segment(&mut self)
        requires
            old(self)@.consistent(),
            old(self)@.routes.len() > 0,
        ensures
            final(self)@.routes == old(self)@.routes.drop_last(),
            final(self)@.total_distance == old(self)@.total_distance
                - old(self)@.routes.last().segment_distance,
            final(self)@.is_interdepartmental == old(self)@.is_interdepartmental,
            final(self)@.consistent(),
    {
        proof {
            lemma_sum_distances_nonnegative(self@.routes.drop_last());
        }
        let last: Option<RouteSegment> = self.routes.pop();
        match last {
            Some(seg) => {
                self.total_distance = self.total_distance - seg.segment_distance;
            },
            None => {},
        }
        let n: usize = self.routes.len();
        self.transfers_count = if n == 0 {
            0
        } else {
            (n - 1) as i32
        };
    }
}

/// A sum of distances is not negative.
pub proof fn lemma_sum_distances_nonnegative(segs: Seq<RouteSegment>)
    ensures
        sum_distances(segs) >= 0,
    decreases segs.len(),
{
    if segs.len() > 0 {
        lemma_sum_distances_nonnegative(segs.drop_last());
    }
}

} // verus!

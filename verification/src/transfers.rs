//! The best place to change between two routes: a shared stop, else the
//! nearest pair of stops, else the nearest pair of vertices.

use vstd::prelude::*;
use crate::geometry::{coords, dist_sq, dist_sq_spec, isqrt, isqrt_spec, strictly_within, GeoPoint};
use crate::model::{BusStop, RouteProperties, TransferPoint, TransferType};

verus! {

/// Stops this close, in micro-degrees, make a near transfer (about 500 m).
pub const NEAR_THRESHOLD: u64 = 5_000;

/// Vertices this close, in micro-degrees, make a proximate transfer (about 1 km).
pub const PROXIMATE_THRESHOLD: u64 = 10_000;

/// Whether the pair `(i, j)` comes before `(i2, j2)` when the first list is
/// walked outside and the second inside.
pub open spec fn pair_before(i: int, j: int, i2: int, j2: int) -> bool {
    i < i2 || (i == i2 && j < j2)
}

/// `(i, j)` is the first pair, one point of each list, among those nearest to
/// each other.
pub open spec fn is_nearest_pair(a: Seq<(int, int)>, b: Seq<(int, int)>, i: int, j: int) -> bool {
    &&& 0 <= i < a.len()
    &&& 0 <= j < b.len()
    &&& forall|i2: int, j2: int|
        #![trigger a[i2], b[j2]]
        0 <= i2 < a.len() && 0 <= j2 < b.len() ==> dist_sq_spec(a[i], b[j]) <= dist_sq_spec(
            a[i2],
            b[j2],
        )
    &&& forall|i2: int, j2: int|
        #![trigger a[i2], b[j2]]
        0 <= i2 < a.len() && 0 <= j2 < b.len() && pair_before(i2, j2, i, j) ==> dist_sq_spec(
            a[i],
            b[j],
        ) < dist_sq_spec(a[i2], b[j2])
}

/// Two lists have at most one first nearest pair.
pub proof fn lemma_nearest_pair_unique(
    a: Seq<(int, int)>,
    b: Seq<(int, int)>,
    i: int,
    j: int,
    i2: int,
    j2: int,
)
    requires
        is_nearest_pair(a, b, i, j),
        is_nearest_pair(a, b, i2, j2),
    ensures
        i == i2,
        j == j2,
{
    let d1 = dist_sq_spec(a[i], b[j]);
    let d2 = dist_sq_spec(a[i2], b[j2]);
    assert(d1 <= d2);
    assert(d2 <= d1);
    if pair_before(i, j, i2, j2) {
        assert(d2 < d1);
    }
    if pair_before(i2, j2, i, j) {
        assert(d1 < d2);
    }
}

/// The first nearest pair of two lists that both hold a point.
pub open spec fn nearest_pair_spec(a: Seq<(int, int)>, b: Seq<(int, int)>) -> (int, int) {
    choose|p: (int, int)| is_nearest_pair(a, b, p.0, p.1)
}

/// The first pair, one point of each list, among those nearest to each other,
/// with its squared distance; nothing where a list is empty.
pub fn nearest_pair(a: &Vec<GeoPoint>, b: &Vec<GeoPoint>) -> (r: Option<(usize, usize, u64)>)
    ensures
        r is None <==> (a.len() == 0 || b.len() == 0),
        r matches Some(f) ==> is_nearest_pair(coords(a@), coords(b@), f.0 as int, f.1 as int)
            && (f.0 as int, f.1 as int) == nearest_pair_spec(coords(a@), coords(b@))
            && f.2 == dist_sq_spec(a@[f.0 as int]@, b@[f.1 as int]@),
{
    let na: usize = a.len();
    let nb: usize = b.len();
    if na == 0 || nb == 0 {
        return None;
    }
    let ghost ca = coords(a@);
    let ghost cb = coords(b@);
    let mut bi: usize = 0;
    let mut bj: usize = 0;
    let mut bd: u64 = dist_sq(a[0], b[0]);
    let mut i: usize = 0;
    while i < na
        invariant
            i <= na,
            na == a.len(),
            nb == b.len(),
            nb > 0,
            ca == coords(a@),
            cb == coords(b@),
            bi < na,
            bj < nb,
            bd == dist_sq_spec(ca[bi as int], cb[bj as int]),
            forall|i2: int, j2: int|
                #![trigger ca[i2], cb[j2]]
                0 <= i2 < i && 0 <= j2 < nb ==> bd <= dist_sq_spec(ca[i2], cb[j2]),
            forall|i2: int, j2: int|
                #![trigger ca[i2], cb[j2]]
                0 <= i2 < na && 0 <= j2 < nb && pair_before(i2, j2, bi as int, bj as int) ==> bd
                    < dist_sq_spec(ca[i2], cb[j2]),
            i == 0 ==> bi == 0 && bj == 0,
            i > 0 ==> bi < i,
        decreases na - i,
    {
        let mut j: usize = 0;
        while j < nb
            invariant
                i < na,
                j <= nb,
                na == a.len(),
                nb == b.len(),
                ca == coords(a@),
                cb == coords(b@),
                bi < na,
                bj < nb,
                bd == dist_sq_spec(ca[bi as int], cb[bj as int]),
                forall|i2: int, j2: int|
                    #![trigger ca[i2], cb[j2]]
                    0 <= i2 < i && 0 <= j2 < nb ==> bd <= dist_sq_spec(ca[i2], cb[j2]),
                forall|j2: int| 0 <= j2 < j ==> bd <= dist_sq_spec(ca[i as int], #[trigger] cb[j2]),
                forall|i2: int, j2: int|
                    #![trigger ca[i2], cb[j2]]
                    0 <= i2 < na && 0 <= j2 < nb && pair_before(i2, j2, bi as int, bj as int)
                        ==> bd < dist_sq_spec(ca[i2], cb[j2]),
                bi < i || (bi == i && (bj < j || (i == 0 && j == 0 && bj == 0))),
            decreases nb - j,
        {
            let d: u64 = dist_sq(a[i], b[j]);
            if d < bd {
                bi = i;
                bj = j;
                bd = d;
            }
            j = j + 1;
        }
        i = i + 1;
    }
    proof {
        assert(is_nearest_pair(ca, cb, bi as int, bj as int));
        let p = nearest_pair_spec(ca, cb);
        assert(is_nearest_pair(ca, cb, (bi as int, bj as int).0, (bi as int, bj as int).1));
        lemma_nearest_pair_unique(ca, cb, bi as int, bj as int, p.0, p.1);
    }
    Some((bi, bj, bd))
}

/// One route as the search holds it: what describes it, its vertices in
/// order, and its stops in the order they were given.
#[derive(Debug)]
pub struct RouteEntry {
    pub properties: RouteProperties,
    pub line: Vec<GeoPoint>,
    pub stops: Vec<BusStop>,
}

/// A route entry as a mathematical value.
pub struct EntryView {
    pub properties: RouteProperties,
    pub line: Seq<GeoPoint>,
    pub stops: Seq<BusStop>,
}

impl View for RouteEntry {
    type V = EntryView;

    open spec fn view(&self) -> EntryView {
        EntryView { properties: self.properties, line: self.line@, stops: self.stops@ }
    }
}

/// The coordinate pairs of a list of stops.
pub open spec fn stop_coords(stops: Seq<BusStop>) -> Seq<(int, int)> {
    stops.map_values(|s: BusStop| s.location@)
}

/// The locations of a list of stops.
pub fn stop_locations(stops: &Vec<BusStop>) -> (r: Vec<GeoPoint>)
    ensures
        r@.len() == stops@.len(),
        forall|i: int| 0 <= i < r@.len() ==> #[trigger] r@[i] == stops@[i].location,
        coords(r@) == stop_coords(stops@),
{
    let mut out: Vec<GeoPoint> = Vec::new();
    let mut i: usize = 0;
    while i < stops.len()
        invariant
            i <= stops.len(),
            out@.len() == i,
            forall|k: int| 0 <= k < i ==> #[trigger] out@[k] == stops@[k].location,
        decreases stops.len() - i,
    {
        out.push(stops[i].location);
        i = i + 1;
    }
    assert(coords(out@) =~= stop_coords(stops@));
    out
}

/// The transfer at a stop of `a` that is also a stop of `b`: at the first such
/// stop of `a`.
pub open spec fn direct_transfer_spec(a: EntryView, b: EntryView) -> Option<TransferPoint> {
    if a.stops.len() == 0 || b.stops.len() == 0 {
        None
    } else {
        let p = nearest_pair_spec(stop_coords(a.stops), stop_coords(b.stops));
        if dist_sq_spec(a.stops[p.0].location@, b.stops[p.1].location@) == 0 {
            Some(
                TransferPoint {
                    location: a.stops[p.0].location,
                    bus_stop: Some(a.stops[p.0]),
                    distance_to_route: 0,
                    transfer_type: TransferType::Direct,
                    from_route: a.properties.code,
                    to_route: Some(b.properties.code),
                },
            )
        } else {
            None
        }
    }
}

/// The transfer at the stop of `a` nearest to a stop of `b`, where the two
/// are less than `max_distance` apart.
pub open spec fn near_transfer_spec(a: EntryView, b: EntryView, max_distance: int) -> Option<
    TransferPoint,
> {
    if a.stops.len() == 0 || b.stops.len() == 0 {
        None
    } else {
        let p = nearest_pair_spec(stop_coords(a.stops), stop_coords(b.stops));
        let d = dist_sq_spec(a.stops[p.0].location@, b.stops[p.1].location@);
        if d < max_distance * max_distance {
            Some(
                TransferPoint {
                    location: a.stops[p.0].location,
                    bus_stop: Some(a.stops[p.0]),
                    distance_to_route: isqrt_spec(d) as u64,
                    transfer_type: TransferType::Near,
                    from_route: a.properties.code,
                    to_route: Some(b.properties.code),
                },
            )
        } else {
            None
        }
    }
}

/// The transfer at the vertex of `a` nearest to a vertex of `b`, where the
/// two are less than `max_distance` apart.
pub open spec fn proximate_transfer_spec(a: EntryView, b: EntryView, max_distance: int) -> Option<
    TransferPoint,
> {
    if a.line.len() == 0 || b.line.len() == 0 {
        None
    } else {
        let p = nearest_pair_spec(coords(a.line), coords(b.line));
        let d = dist_sq_spec(a.line[p.0]@, b.line[p.1]@);
        if d < max_distance * max_distance {
            Some(
                TransferPoint {
                    location: a.line[p.0],
                    bus_stop: None,
                    distance_to_route: isqrt_spec(d) as u64,
                    transfer_type: TransferType::Proximate,
                    from_route: a.properties.code,
                    to_route: Some(b.properties.code),
                },
            )
        } else {
            None
        }
    }
}

/// The best transfer from `a` to `b`: direct, else near, else proximate.
pub open spec fn best_transfer_spec(a: EntryView, b: EntryView) -> Option<TransferPoint> {
    if direct_transfer_spec(a, b) is Some {
        direct_transfer_spec(a, b)
    } else if near_transfer_spec(a, b, NEAR_THRESHOLD as int) is Some {
        near_transfer_spec(a, b, NEAR_THRESHOLD as int)
    } else {
        proximate_transfer_spec(a, b, PROXIMATE_THRESHOLD as int)
    }
}

/// The best transfer is of the best tier that qualifies: where the routes
/// share a stop it is direct, and where it is proximate no pair of stops is
/// near enough.
pub proof fn lemma_tier_priority(a: EntryView, b: EntryView)
    ensures
        direct_transfer_spec(a, b) is Some ==> best_transfer_spec(a, b) is Some
            && best_transfer_spec(a, b)->0.transfer_type == TransferType::Direct
            && best_transfer_spec(a, b)->0.distance_to_route == 0,
        best_transfer_spec(a, b) matches Some(t) ==> (t.transfer_type == TransferType::Direct
            <==> direct_transfer_spec(a, b) is Some) && (t.transfer_type == TransferType::Near
            ==> near_transfer_spec(a, b, NEAR_THRESHOLD as int) is Some) && (t.transfer_type
            == TransferType::Proximate ==> near_transfer_spec(a, b, NEAR_THRESHOLD as int)
            is None),
{
}

/// The transfer at a stop that both routes have.
pub fn find_direct_transfer(a: &RouteEntry, b: &RouteEntry) -> (r: Option<TransferPoint>)
    ensures
        r == direct_transfer_spec(a@, b@),
{
    let pa: Vec<GeoPoint> = stop_locations(&a.stops);
    let pb: Vec<GeoPoint> = stop_locations(&b.stops);
    match nearest_pair(&pa, &pb) {
        None => None,
        Some(found) => {
            if found.2 == 0 {
                Some(
                    TransferPoint {
                        location: a.stops[found.0].location,
                        bus_stop: Some(a.stops[found.0].clone()),
                        distance_to_route: 0,
                        transfer_type: TransferType::Direct,
                        from_route: a.properties.code.clone(),
                        to_route: Some(b.properties.code.clone()),
                    },
                )
            } else {
                None
            }
        },
    }
}

/// The transfer between the nearest stops of the two routes, where they are
/// less than `max_distance` apart.
pub fn find_near_transfer(a: &RouteEntry, b: &RouteEntry, max_distance: u64) -> (r: Option<
    TransferPoint,
>)
    ensures
        r == near_transfer_spec(a@, b@, max_distance as int),
{
    let pa: Vec<GeoPoint> = stop_locations(&a.stops);
    let pb: Vec<GeoPoint> = stop_locations(&b.stops);
    match nearest_pair(&pa, &pb) {
        None => None,
        Some(found) => {
            if strictly_within(found.2, max_distance) {
                Some(
                    TransferPoint {
                        location: a.stops[found.0].location,
                        bus_stop: Some(a.stops[found.0].clone()),
                        distance_to_route: isqrt(found.2),
                        transfer_type: TransferType::Near,
                        from_route: a.properties.code.clone(),
                        to_route: Some(b.properties.code.clone()),
                    },
                )
            } else {
                None
            }
        },
    }
}

/// The transfer between the nearest vertices of the two routes, where they
/// are less than `max_distance` apart.
pub fn find_proximate_transfer(a: &RouteEntry, b: &RouteEntry, max_distance: u64) -> (r: Option<
    TransferPoint,
>)
    ensures
        r == proximate_transfer_spec(a@, b@, max_distance as int),
{
    match nearest_pair(&a.line, &b.line) {
        None => None,
        Some(found) => {
            if strictly_within(found.2, max_distance) {
                Some(
                    TransferPoint {
                        location: a.line[found.0],
                        bus_stop: None,
                        distance_to_route: isqrt(found.2),
                        transfer_type: TransferType::Proximate,
                        from_route: a.properties.code.clone(),
                        to_route: Some(b.properties.code.clone()),
                    },
                )
            } else {
                None
            }
        },
    }
}

/// The best transfer from `a` to `b`: at a shared stop, else between stops
/// within the near threshold, else between vertices within the proximate
/// threshold.
pub fn find_best_transfer(a: &RouteEntry, b: &RouteEntry) -> (r: Option<TransferPoint>)
    ensures
        r == best_transfer_spec(a@, b@),
{
    let direct: Option<TransferPoint> = find_direct_transfer(a, b);
    if direct.is_some() {
        return direct;
    }
    let near: Option<TransferPoint> = find_near_transfer(a, b, NEAR_THRESHOLD);
    if near.is_some() {
        return near;
    }
    find_proximate_transfer(a, b, PROXIMATE_THRESHOLD)
}

} // verus!

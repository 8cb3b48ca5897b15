//! The routes by code: one entry for each code, with its vertices and its
//! stops.

use vstd::prelude::*;
use crate::geometry::GeoPoint;
use crate::model::{clone_points, BusStop, GeoJsonGeometry, Route};
use crate::transfers::{EntryView, RouteEntry};

verus! {

/// The vertices of a route's shape: those of a line string, none of anything
/// else.
pub open spec fn line_of(g: GeoJsonGeometry) -> Seq<GeoPoint> {
    match g {
        GeoJsonGeometry::LineString { coordinates } => coordinates@,
        _ => Seq::empty(),
    }
}

/// Those of the first `k` stops that belong to the route `code`, in order.
pub open spec fn stops_of(stops: Seq<BusStop>, code: Seq<char>, k: int) -> Seq<BusStop>
    decreases k,
{
    if k <= 0 {
        Seq::empty()
    } else if stops[k - 1].route_code@ == code {
        stops_of(stops, code, k - 1).push(stops[k - 1])
    } else {
        stops_of(stops, code, k - 1)
    }
}

/// `i` is the first entry with the code `code`.
pub open spec fn is_first_match(entries: Seq<EntryView>, code: Seq<char>, i: int) -> bool {
    &&& 0 <= i < entries.len()
    &&& entries[i].properties.code@ == code
    &&& forall|j: int| 0 <= j < i ==> (#[trigger] entries[j]).properties.code@ != code
}

/// The position of the first entry with the code `code`.
pub open spec fn lookup(entries: Seq<EntryView>, code: Seq<char>) -> Option<int> {
    if exists|i: int| is_first_match(entries, code, i) {
        Some(choose|i: int| is_first_match(entries, code, i))
    } else {
        None
    }
}

/// No two entries have the same code.
pub open spec fn codes_distinct(entries: Seq<EntryView>) -> bool {
    forall|i: int, j: int|
        0 <= i < j < entries.len() ==> (#[trigger] entries[i]).properties.code@ != (
        #[trigger] entries[j]).properties.code@
}

/// The entry for `route` with its stops among `stops`.
pub open spec fn entry_of(route: Route, stops: Seq<BusStop>) -> EntryView {
    EntryView {
        properties: route.properties,
        line: line_of(route.geometry),
        stops: stops_of(stops, route.properties.code@, stops.len() as int),
    }
}

/// `acc` with `route` in it: in the place of the entry that has its code,
/// else at the end.
pub open spec fn insert_route(acc: Seq<EntryView>, route: Route, stops: Seq<BusStop>) -> Seq<
    EntryView,
> {
    match lookup(acc, route.properties.code@) {
        Some(i) => acc.update(i, entry_of(route, stops)),
        None => acc.push(entry_of(route, stops)),
    }
}

/// The entries for the first `k` of `routes`: one for each code, in the order
/// in which the codes first occur, each from the last route with that code.
pub open spec fn index_entries(routes: Seq<Route>, stops: Seq<BusStop>, k: int) -> Seq<EntryView>
    decreases k,
{
    if k <= 0 {
        Seq::empty()
    } else {
        insert_route(index_entries(routes, stops, k - 1), routes[k - 1], stops)
    }
}

/// The mathematical values of a list of entries.
pub open spec fn entry_views(entries: Seq<RouteEntry>) -> Seq<EntryView> {
    entries.map_values(|e: RouteEntry| e@)
}

/// The position of the first of `entries` with the code `code`.
pub fn find_entry(entries: &Vec<RouteEntry>, code: &String) -> (r: Option<usize>)
    ensures
        r matches Some(i) ==> is_first_match(entry_views(entries@), code@, i as int),
        match r {
            Some(i) => lookup(entry_views(entries@), code@) == Some(i as int),
            None => lookup(entry_views(entries@), code@) is None,
        },
{
    let ghost ev = entry_views(entries@);
    let mut k: usize = 0;
    while k < entries.len()
        invariant
            k <= entries.len(),
            ev == entry_views(entries@),
            forall|j: int| 0 <= j < k ==> (#[trigger] ev[j]).properties.code@ != code@,
        decreases entries.len() - k,
    {
        if entries[k].properties.code == *code {
            proof {
                assert(ev[k as int] == entries@[k as int]@);
                assert(is_first_match(ev, code@, k as int));
                let c = choose|i: int| is_first_match(ev, code@, i);
                assert(is_first_match(ev, code@, c));
                assert(c == k);
            }
            return Some(k);
        }
        assert(ev[k as int] == entries@[k as int]@);
        k = k + 1;
    }
    proof {
        assert forall|i: int| !is_first_match(ev, code@, i) by {
            if 0 <= i < ev.len() {
                assert(ev[i].properties.code@ != code@);
            }
        }
    }
    None
}

/// Those of `stops` that belong to the route `code`, in order.
pub fn collect_stops(stops: &Vec<BusStop>, code: &String) -> (r: Vec<BusStop>)
    ensures
        r@ == stops_of(stops@, code@, stops@.len() as int),
{
    let mut out: Vec<BusStop> = Vec::new();
    let mut k: usize = 0;
    while k < stops.len()
        invariant
            k <= stops.len(),
            out@ == stops_of(stops@, code@, k as int),
        decreases stops.len() - k,
    {
        if stops[k].route_code == *code {
            out.push(stops[k].clone());
        }
        k = k + 1;
    }
    out
}

/// The entry for `route` with its stops among `stops`.
pub fn make_entry(route: &Route, stops: &Vec<BusStop>) -> (r: RouteEntry)
    ensures
        r@ == entry_of(*route, stops@),
{
    let line: Vec<GeoPoint> = match &route.geometry {
        GeoJsonGeometry::LineString { coordinates } => clone_points(coordinates),
        _ => Vec::new(),
    };
    RouteEntry {
        properties: route.properties.clone(),
        line,
        stops: collect_stops(stops, &route.properties.code),
    }
}

/// Inserting a route keeps the codes distinct.
pub proof fn lemma_insert_keeps_distinct(acc: Seq<EntryView>, route: Route, stops: Seq<BusStop>)
    requires
        codes_distinct(acc),
    ensures
        codes_distinct(insert_route(acc, route, stops)),
{
    let code = route.properties.code@;
    let out = insert_route(acc, route, stops);
    match lookup(acc, code) {
        Some(i) => {
            assert(is_first_match(acc, code, i));
            assert forall|a: int, b: int| 0 <= a < b < out.len() implies (#[trigger] out[a]).properties.code@
                != (#[trigger] out[b]).properties.code@ by {
                assert(out[a].properties.code@ == acc[a].properties.code@);
                assert(out[b].properties.code@ == acc[b].properties.code@);
            }
        },
        None => {
            assert forall|a: int, b: int| 0 <= a < b < out.len() implies (#[trigger] out[a]).properties.code@
                != (#[trigger] out[b]).properties.code@ by {
                if b == acc.len() {
                    if acc[a].properties.code@ == code {
                        lemma_match_gives_first(acc, code, a);
                    }
                } else {
                    assert(out[a] == acc[a]);
                    assert(out[b] == acc[b]);
                }
            }
        },
    }
}

/// Where an entry has the code, some entry is the first with it.
pub proof fn lemma_match_gives_first(entries: Seq<EntryView>, code: Seq<char>, a: int)
    requires
        0 <= a < entries.len(),
        entries[a].properties.code@ == code,
    ensures
        exists|i: int| is_first_match(entries, code, i),
    decreases a,
{
    if exists|j: int| 0 <= j < a && (#[trigger] entries[j]).properties.code@ == code {
        let j = choose|j: int| 0 <= j < a && (#[trigger] entries[j]).properties.code@ == code;
        lemma_match_gives_first(entries, code, j);
    } else {
        assert(is_first_match(entries, code, a));
    }
}

/// With distinct codes, each entry is found under its own code.
pub proof fn lemma_lookup_own_code(entries: Seq<EntryView>, i: int)
    requires
        codes_distinct(entries),
        0 <= i < entries.len(),
    ensures
        lookup(entries, entries[i].properties.code@) == Some(i),
{
    let code = entries[i].properties.code@;
    assert(is_first_match(entries, code, i));
    let c = choose|k: int| is_first_match(entries, code, k);
    assert(is_first_match(entries, code, c));
    if c < i {
        assert(entries[c].properties.code@ != entries[i].properties.code@);
    }
}

/// The entries for `routes`: one for each code, each with its stops.
pub fn build_entries(routes: &Vec<Route>, stops: &Vec<BusStop>) -> (r: Vec<RouteEntry>)
    ensures
        entry_views(r@) == index_entries(routes@, stops@, routes@.len() as int),
        codes_distinct(entry_views(r@)),
{
    let mut out: Vec<RouteEntry> = Vec::new();
    let mut k: usize = 0;
    assert(entry_views(out@) =~= index_entries(routes@, stops@, 0));
    while k < routes.len()
        invariant
            k <= routes.len(),
            entry_views(out@) == index_entries(routes@, stops@, k as int),
            codes_distinct(entry_views(out@)),
        decreases routes.len() - k,
    {
        let entry: RouteEntry = make_entry(&routes[k], stops);
        let ghost before = entry_views(out@);
        proof {
            lemma_insert_keeps_distinct(before, routes@[k as int], stops@);
        }
        match find_entry(&out, &routes[k].properties.code) {
            Some(i) => {
                out.set(i, entry);
                assert(entry_views(out@) =~= before.update(i as int, entry@));
            },
            None => {
                out.push(entry);
                assert(entry_views(out@) =~= before.push(entry@));
            },
        }
        k = k + 1;
    }
    out
}

} // verus!

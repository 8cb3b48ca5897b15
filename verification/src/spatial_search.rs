//! The search engine: the route index, the adjacency, and the search for
//! chains of routes between two points.

use vstd::prelude::*;
use crate::adjacency::{
    adjacency_spec, cached_adjacency, cached_list, cached_transfers, candidates_upto,
    neighbors_from, neighbors_spec, transfer_views,
};
use crate::cache::RouteIntersectionCache;
use crate::errors::SearchError;
use crate::geometry::{
    bounding_box, box_meets, closest_vertex, coords, dist_sq_spec, distance, extent_of,
    has_vertex_within, is_closest_vertex, may_meet, polyline_distance, vertex_within, BoundingBox,
    GeoPoint, MAX_DIST,
};
use crate::model::{BusStop, PlanView, Route, RoutePlan, RouteSegment, TransferPoint, TransferType};
use crate::ranking::{lemma_sorted_order, positions, rank_values, sorted_order};
use crate::route_index::{
    build_entries, codes_distinct, entry_views, find_entry, index_entries, lookup,
};
use crate::transfers::{find_best_transfer, EntryView, RouteEntry, PROXIMATE_THRESHOLD};
use crate::walk::{
    all_routes_spec, best_plans, budget, closest_vertex_spec, empty_plan, explore_spec,
    explore_transfers_spec, final_segment_spec, flagged_positions, flagged_upto, good_plan,
    lemma_best_plans_ordered, lemma_flagged_upto, lemma_none_flagged, lemma_step_keeps_path,
    near_flags, next_route, no_later, path_ok, pick_ranked, plan_codes_distinct, plan_rank,
    plan_views, plan_with, rank_of, transfer_segment_spec, Quest,
};

verus! {

/// The routes by code, the stops of each, and the best transfer from each
/// route to each route near it.
pub struct SpatialSearch {
    routes: Vec<RouteEntry>,
    route_intersections: Vec<Vec<TransferPoint>>,
}

impl SpatialSearch {
    #[verifier::type_invariant]
    spec fn well_formed(self) -> bool {
        &&& self.route_intersections@.len() == self.routes@.len()
        &&& codes_distinct(entry_views(self.routes@))
    }

    /// The routes held, in order.
    pub closed spec fn entries(&self) -> Seq<EntryView> {
        entry_views(self.routes@)
    }

    /// The transfers out of each route, in the order of the routes.
    pub closed spec fn adjacency(&self) -> Seq<Seq<TransferPoint>> {
        transfer_views(self.route_intersections@)
    }

    /// The number of routes held.
    pub fn route_count(&self) -> (r: usize)
        ensures
            r == self.entries().len(),
            self.adjacency().len() == self.entries().len(),
            codes_distinct(self.entries()),
    {
        proof {
            use_type_invariant(self);
        }
        self.routes.len()
    }

    /// The route at position `i`.
    pub fn route(&self, i: usize) -> (r: &RouteEntry)
        requires
            i < self.entries().len(),
        ensures
            r@ == self.entries()[i as int],
    {
        &self.routes[i]
    }

    /// The transfers out of the route at position `i`.
    pub fn transfers(&self, i: usize) -> (r: &Vec<TransferPoint>)
        requires
            i < self.entries().len(),
        ensures
            r@ == self.adjacency()[i as int],
    {
        proof {
            use_type_invariant(self);
        }
        &self.route_intersections[i]
    }

    /// The position of the route with the code `code`.
    pub fn find_route(&self, code: &String) -> (r: Option<usize>)
        ensures
            match r {
                Some(i) => lookup(self.entries(), code@) == Some(i as int) && i
                    < self.entries().len(),
                None => lookup(self.entries(), code@) is None,
            },
    {
        find_entry(&self.routes, code)
    }

    /// The routes that may come near the route at position `i`: those whose
    /// bounding box, widened by the proximate threshold, has a point in
    /// common with the widened bounding box of that route. The route itself
    /// is among them where it has a vertex.
    pub fn find_potential_intersections(&self, i: usize) -> (r: Vec<usize>)
        requires
            i < self.entries().len(),
        ensures
            r@.map_values(|j: usize| j as int) == candidates_upto(
                self.entries(),
                i as int,
                self.entries().len() as int,
            ),
            forall|m: int| 0 <= m < r@.len() ==> (#[trigger] r@[m]) < self.entries().len(),
    {
        let ghost ev = self.entries();
        let bb: Option<BoundingBox> = bounding_box(&self.routes[i].line);
        let mut out: Vec<usize> = Vec::new();
        let mut k: usize = 0;
        assert(out@.map_values(|j: usize| j as int) =~= candidates_upto(ev, i as int, 0));
        while k < self.routes.len()
            invariant
                k <= self.routes.len(),
                i < self.routes.len(),
                ev == entry_views(self.routes@),
                bb is None <==> self.routes@[i as int].line@.len() == 0,
                bb matches Some(b) ==> b@ == extent_of(
                    coords(self.routes@[i as int].line@),
                ),
                out@.map_values(|j: usize| j as int) == candidates_upto(ev, i as int, k as int),
                forall|m: int| 0 <= m < out@.len() ==> (#[trigger] out@[m]) < self.routes.len(),
            decreases self.routes.len() - k,
        {
            let meets: bool = match &bb {
                Some(b) => box_meets(b, PROXIMATE_THRESHOLD, &self.routes[k].line),
                None => false,
            };
            proof {
                assert(ev[i as int].line == self.routes@[i as int].line@);
                assert(ev[k as int].line == self.routes@[k as int].line@);
                assert(meets == may_meet(
                    coords(ev[i as int].line),
                    coords(ev[k as int].line),
                    PROXIMATE_THRESHOLD as int,
                ));
            }
            let ghost before = out@.map_values(|j: usize| j as int);
            if meets {
                out.push(k);
                assert(out@.map_values(|j: usize| j as int) =~= before.push(k as int));
            }
            k = k + 1;
        }
        out
    }

    /// The transfers out of the route at position `i`.
    pub fn neighbor_transfers(&self, i: usize) -> (r: Vec<TransferPoint>)
        requires
            i < self.entries().len(),
        ensures
            r@ == neighbors_spec(self.entries(), i as int),
    {
        let ghost ev = self.entries();
        let cands: Vec<usize> = self.find_potential_intersections(i);
        let ghost cs = cands@.map_values(|j: usize| j as int);
        let mut out: Vec<TransferPoint> = Vec::new();
        let mut m: usize = 0;
        while m < cands.len()
            invariant
                m <= cands.len(),
                i < self.routes.len(),
                ev == entry_views(self.routes@),
                cs == cands@.map_values(|j: usize| j as int),
                forall|q: int| 0 <= q < cands@.len() ==> (#[trigger] cands@[q]) < self.routes.len(),
                out@ == neighbors_from(ev, i as int, cs, m as int),
            decreases cands.len() - m,
        {
            let j: usize = cands[m];
            assert(cs[m as int] == j);
            assert(ev[i as int] == self.routes@[i as int]@);
            assert(ev[j as int] == self.routes@[j as int]@);
            if j != i {
                match find_best_transfer(&self.routes[i], &self.routes[j]) {
                    Some(t) => {
                        out.push(t);
                    },
                    None => {},
                }
            }
            m = m + 1;
        }
        out
    }

    /// Computes the adjacency anew from the routes and stops held.
    pub fn precalculate_intersections(&mut self)
        ensures
            final(self).entries() == old(self).entries(),
            final(self).adjacency() == adjacency_spec(old(self).entries()),
    {
        proof {
            use_type_invariant(&*self);
        }
        let ghost ev = self.entries();
        let n: usize = self.routes.len();
        let mut lists: Vec<Vec<TransferPoint>> = Vec::new();
        let mut i: usize = 0;
        while i < n
            invariant
                i <= n,
                n == self.routes.len(),
                ev == self.entries(),
                lists@.len() == i,
                forall|q: int| 0 <= q < i ==> (#[trigger] lists@[q])@ == neighbors_spec(ev, q),
            decreases n - i,
        {
            let list: Vec<TransferPoint> = self.neighbor_transfers(i);
            lists.push(list);
            i = i + 1;
        }
        assert(transfer_views(lists@) =~= adjacency_spec(ev));
        self.route_intersections = lists;
    }

    /// The adjacency as `cache` holds it for the routes held.
    fn adopt_cache(&mut self, cache: &RouteIntersectionCache)
        ensures
            final(self).entries() == old(self).entries(),
            final(self).adjacency() == cached_adjacency(old(self).entries(), cache.intersections@),
    {
        proof {
            use_type_invariant(&*self);
        }
        let ghost ev = self.entries();
        let n: usize = self.routes.len();
        let mut lists: Vec<Vec<TransferPoint>> = Vec::new();
        let mut i: usize = 0;
        while i < n
            invariant
                i <= n,
                n == self.routes.len(),
                ev == self.entries(),
                lists@.len() == i,
                forall|q: int|
                    0 <= q < i ==> (#[trigger] lists@[q])@ == cached_transfers(
                        cache.intersections@,
                        ev[q].properties.code@,
                    ),
            decreases n - i,
        {
            assert(ev[i as int] == self.routes@[i as int]@);
            let list: Vec<TransferPoint> = cached_list(
                &cache.intersections,
                &self.routes[i].properties.code,
            );
            lists.push(list);
            i = i + 1;
        }
        assert(transfer_views(lists@) =~= cached_adjacency(ev, cache.intersections@));
        self.route_intersections = lists;
    }

    /// The search over `routes` and `bus_stops`: one entry for each route
    /// code, each with its stops, and the adjacency that `cache` holds, or,
    /// without a cache, the adjacency computed from the routes and stops.
    pub fn new(routes: Vec<Route>, bus_stops: Vec<BusStop>, cache: Option<RouteIntersectionCache>) -> (r:
        Self)
        ensures
            r.entries() == index_entries(routes@, bus_stops@, routes@.len() as int),
            codes_distinct(r.entries()),
            match cache {
                Some(c) => r.adjacency() == cached_adjacency(r.entries(), c.intersections@),
                None => r.adjacency() == adjacency_spec(r.entries()),
            },
    {
        let entries: Vec<RouteEntry> = build_entries(&routes, &bus_stops);
        let n: usize = entries.len();
        let mut empty: Vec<Vec<TransferPoint>> = Vec::new();
        let mut i: usize = 0;
        while i < n
            invariant
                i <= n,
                empty@.len() == i,
            decreases n - i,
        {
            empty.push(Vec::new());
            i = i + 1;
        }
        let mut search: SpatialSearch = SpatialSearch { routes: entries, route_intersections: empty };
        match &cache {
            Some(c) => {
                search.adopt_cache(c);
            },
            None => {
                search.precalculate_intersections();
            },
        }
        search
    }

    /// Which routes have a vertex within `max_distance` of `point`.
    pub fn mark_nearby(&self, point: GeoPoint, max_distance: u64) -> (r: Vec<bool>)
        ensures
            r@ == near_flags(self.entries(), point@, max_distance as int),
    {
        let mut flags: Vec<bool> = Vec::new();
        let mut i: usize = 0;
        while i < self.routes.len()
            invariant
                i <= self.routes.len(),
                flags@.len() == i,
                forall|k: int|
                    0 <= k < i ==> #[trigger] flags@[k] == has_vertex_within(
                        coords(self.entries()[k].line),
                        point@,
                        max_distance as int,
                    ),
            decreases self.routes.len() - i,
        {
            assert(self.entries()[i as int] == self.routes@[i as int]@);
            flags.push(vertex_within(&self.routes[i].line, point, max_distance));
            i = i + 1;
        }
        assert(flags@ =~= near_flags(self.entries(), point@, max_distance as int));
        flags
    }

    /// The routes that have a vertex within `max_distance` of `point`, by
    /// position, rising.
    pub fn find_nearby_routes(&self, point: GeoPoint, max_distance: u64) -> (r: Vec<usize>)
        ensures
            positions(r@) == flagged_upto(
                near_flags(self.entries(), point@, max_distance as int),
                self.entries().len() as int,
            ),
            forall|a: int|
                0 <= a < r@.len() ==> (#[trigger] r@[a]) < self.entries().len() && has_vertex_within(
                    coords(self.entries()[r@[a] as int].line),
                    point@,
                    max_distance as int,
                ),
            forall|i: int|
                0 <= i < self.entries().len() && has_vertex_within(
                    coords((#[trigger] self.entries()[i]).line),
                    point@,
                    max_distance as int,
                ) ==> positions(r@).contains(i),
    {
        let flags: Vec<bool> = self.mark_nearby(point, max_distance);
        let found: Vec<usize> = flagged_positions(&flags);
        proof {
            lemma_flagged_upto(flags@, flags@.len() as int);
            assert forall|a: int| 0 <= a < found@.len() implies has_vertex_within(
                coords(self.entries()[(#[trigger] found@[a]) as int].line),
                point@,
                max_distance as int,
            ) by {
                assert(positions(found@)[a] == found@[a]);
                assert(flags@[found@[a] as int]);
            }
            assert forall|i: int|
                0 <= i < self.entries().len() && has_vertex_within(
                    coords((#[trigger] self.entries()[i]).line),
                    point@,
                    max_distance as int,
                ) implies positions(found@).contains(i) by {
                assert(flags@[i]);
            }
        }
        found
    }

    /// What a search for `destination` walks over, with `dest` marking the
    /// routes that end the walk.
    pub open spec fn quest(&self, dest: Seq<bool>, destination: (int, int)) -> Quest {
        Quest { entries: self.entries(), adjacency: self.adjacency(), dest, destination }
    }

    /// Walks on from the route `cur`, appending to `all_plans` each plan that
    /// reaches a route marked in `dest`, and leaves `visited` and
    /// `current_plan` as they were.
    fn explore_route_path(
        &self,
        cur: usize,
        dest: &Vec<bool>,
        destination: GeoPoint,
        transfers_left: i32,
        visited: &mut Vec<bool>,
        current_plan: &mut RoutePlan,
        all_plans: &mut Vec<RoutePlan>,
    )
        requires
            cur < self.entries().len(),
            dest@.len() == self.entries().len(),
            old(visited)@.len() == self.entries().len(),
            path_ok(self.entries(), cur as int, old(visited)@, old(current_plan)@),
            old(current_plan)@.routes.len() + budget(transfers_left as int) <= i32::MAX,
        ensures
            final(visited)@ == old(visited)@,
            final(current_plan)@ == old(current_plan)@,
            plan_views(final(all_plans)@) == plan_views(old(all_plans)@) + explore_spec(
                self.quest(dest@, destination@),
                cur as int,
                transfers_left as int,
                old(visited)@,
                old(current_plan)@,
            ),
            forall|i: int|
                old(all_plans)@.len() <= i < final(all_plans)@.len() ==> good_plan(
                    #[trigger] plan_views(final(all_plans)@)[i],
                    old(current_plan)@.routes.len() + budget(transfers_left as int) + 1,
                ),
        decreases transfers_left,
    {
        proof {
            use_type_invariant(self);
        }
        let ghost q = self.quest(dest@, destination@);
        let ghost ev = self.entries();
        let ghost marks = visited@;
        let ghost base = current_plan@;
        let ghost earlier = plan_views(all_plans@);
        let ghost limit = base.routes.len() + budget(transfers_left as int) + 1;
        assert(ev[cur as int] == self.routes@[cur as int]@);
        if dest[cur] {
            match closest_vertex(&self.routes[cur].line, destination) {
                Some(found) => {
                    let end: GeoPoint = self.routes[cur].line[found.0];
                    proof {
                        let line = coords(ev[cur as int].line);
                        let c = closest_vertex_spec(line, destination@);
                        assert(is_closest_vertex(line, destination@, found.0 as int));
                        assert(is_closest_vertex(line, destination@, c));
                        assert(line[c] == ev[cur as int].line[c]@);
                        assert(line[found.0 as int] == ev[cur as int].line[found.0 as int]@);
                        if c < found.0 {
                            assert(dist_sq_spec(line[found.0 as int], destination@)
                                < dist_sq_spec(line[c], destination@));
                        }
                        if found.0 < c {
                            assert(dist_sq_spec(line[c], destination@)
                                < dist_sq_spec(line[found.0 as int], destination@));
                        }
                        assert(c == found.0);
                    }
                    let seg: RouteSegment = RouteSegment {
                        route: self.routes[cur].properties.clone(),
                        transfer_point: TransferPoint {
                            location: end,
                            bus_stop: None,
                            distance_to_route: distance(end, destination),
                            transfer_type: TransferType::Direct,
                            from_route: self.routes[cur].properties.code.clone(),
                            to_route: None,
                        },
                        transfer_type: TransferType::Direct,
                        segment_distance: polyline_distance(&self.routes[cur].line, end),
                    };
                    assert(seg == final_segment_spec(ev[cur as int], destination@));
                    assert(base.total_distance + seg.segment_distance <= (base.routes.len() + 1)
                        * MAX_DIST) by (nonlinear_arith)
                        requires
                            base.total_distance <= base.routes.len() * MAX_DIST,
                            seg.segment_distance <= MAX_DIST,
                    ;
                    assert((base.routes.len() + 1) * MAX_DIST <= 0x8000_0000 * MAX_DIST)
                        by (nonlinear_arith)
                        requires
                            base.routes.len() + 1 <= 0x8000_0000,
                    ;
                    current_plan.add_segment(seg);
                    let done: RoutePlan = current_plan.clone();
                    proof {
                        assert(done@ == plan_with(base, seg));
                        assert(plan_codes_distinct(done@.routes));
                    }
                    all_plans.push(done);
                    current_plan.remove_last_segment();
                    proof {
                        assert(current_plan@.routes =~= base.routes);
                        assert(current_plan@ == base);
                        assert(plan_views(all_plans@) =~= earlier + seq![plan_with(base, seg)]);
                    }
                    return ;
                },
                None => {},
            }
        }
        if transfers_left <= 0 {
            assert(plan_views(all_plans@) =~= earlier + Seq::<PlanView>::empty());
            return ;
        }
        let count: usize = self.route_intersections[cur].len();
        let mut k: usize = 0;
        assert(earlier + explore_transfers_spec(q, cur as int, transfers_left as int, marks, base, 0) == earlier
            + explore_spec(q, cur as int, transfers_left as int, marks, base));
        while k < count
            invariant
                k <= count,
                cur < self.routes@.len(),
                count == self.route_intersections@[cur as int]@.len(),
                self.route_intersections@.len() == self.routes@.len(),
                codes_distinct(entry_views(self.routes@)),
                q == self.quest(dest@, destination@),
                ev == self.entries(),
                dest@.len() == ev.len(),
                transfers_left > 0,
                visited@ == marks,
                current_plan@ == base,
                marks.len() == ev.len(),
                path_ok(ev, cur as int, marks, base),
                base.routes.len() + transfers_left <= i32::MAX,
                limit == base.routes.len() + transfers_left + 1,
                earlier.len() <= all_plans@.len(),
                plan_views(all_plans@) + explore_transfers_spec(
                    q,
                    cur as int,
                    transfers_left as int,
                    marks,
                    base,
                    k as int,
                ) == earlier + explore_transfers_spec(q, cur as int, transfers_left as int, marks, base, 0),
                forall|i: int|
                    earlier.len() <= i < all_plans@.len() ==> good_plan(
                        #[trigger] plan_views(all_plans@)[i],
                        limit,
                    ),
            decreases count - k,
        {
            let t: &TransferPoint = &self.route_intersections[cur][k];
            let ghost before = plan_views(all_plans@);
            let ghost rest = explore_transfers_spec(
                q,
                cur as int,
                transfers_left as int,
                marks,
                base,
                k + 1,
            );
            assert(q.adjacency[cur as int][k as int] == *t);
            assert(ev[cur as int] == self.routes@[cur as int]@);
            let next_opt: Option<usize> = match &t.to_route {
                Some(code) => match find_entry(&self.routes, code) {
                    Some(next) => if visited[next] {
                        None
                    } else {
                        Some(next)
                    },
                    None => None,
                },
                None => None,
            };
            assert(match next_opt {
                Some(next) => next_route(ev, *t, marks) == Some(next as int),
                None => next_route(ev, *t, marks) is None,
            });
            match next_opt {
                Some(next) => {
                    let seg: RouteSegment = RouteSegment {
                        route: self.routes[cur].properties.clone(),
                        transfer_point: t.clone(),
                        transfer_type: t.transfer_type,
                        segment_distance: polyline_distance(&self.routes[cur].line, t.location),
                    };
                    assert(seg == transfer_segment_spec(ev[cur as int], *t));
                    assert(base.total_distance + seg.segment_distance <= (base.routes.len() + 1)
                        * MAX_DIST) by (nonlinear_arith)
                        requires
                            base.total_distance <= base.routes.len() * MAX_DIST,
                            seg.segment_distance <= MAX_DIST,
                    ;
                    assert((base.routes.len() + 1) * MAX_DIST <= 0x8000_0000 * MAX_DIST)
                        by (nonlinear_arith)
                        requires
                            base.routes.len() + 1 <= 0x8000_0000,
                    ;
                    visited.set(next, true);
                    current_plan.add_segment(seg);
                    let ghost marked = visited@;
                    let ghost grown = current_plan@;
                    proof {
                        assert(marked == marks.update(next as int, true));
                        assert(grown == plan_with(base, seg));
                        lemma_step_keeps_path(ev, cur as int, next as int, marks, base, seg);
                    }
                    self.explore_route_path(
                        next,
                        dest,
                        destination,
                        transfers_left - 1,
                        visited,
                        current_plan,
                        all_plans,
                    );
                    visited.set(next, false);
                    current_plan.remove_last_segment();
                    proof {
                        assert(visited@ =~= marks);
                        assert(current_plan@.routes =~= base.routes);
                        assert(current_plan@ == base);
                        let found = explore_spec(q, next as int, transfers_left - 1, marked, grown);
                        assert(plan_views(all_plans@) == before + found);
                        assert((before + found) + rest =~= before + (found + rest));
                    }
                },
                None => {},
            }
            k = k + 1;
        }
    }

    /// The plans found from each of `origin_routes` in turn.
    fn find_all_possible_routes(
        &self,
        origin_routes: &Vec<usize>,
        dest: &Vec<bool>,
        destination: GeoPoint,
        max_transfers: i32,
    ) -> (r: Result<Vec<RoutePlan>, SearchError>)
        requires
            dest@.len() == self.entries().len(),
            forall|a: int|
                0 <= a < origin_routes@.len() ==> (#[trigger] origin_routes@[a])
                    < self.entries().len(),
        ensures
            match r {
                Ok(plans) => plans@.len() > 0 && plan_views(plans@) == all_routes_spec(
                    self.quest(dest@, destination@),
                    positions(origin_routes@),
                    max_transfers as int,
                    origin_routes@.len() as int,
                ) && forall|i: int|
                    0 <= i < plans@.len() ==> good_plan(
                        #[trigger] plan_views(plans@)[i],
                        budget(max_transfers as int) + 1,
                    ),
                Err(e) => e == SearchError::NoValidPath && all_routes_spec(
                    self.quest(dest@, destination@),
                    positions(origin_routes@),
                    max_transfers as int,
                    origin_routes@.len() as int,
                ).len() == 0,
            },
    {
        let ghost q = self.quest(dest@, destination@);
        let ghost starts = positions(origin_routes@);
        let n: usize = self.route_count();
        let mut plans: Vec<RoutePlan> = Vec::new();
        let mut visited: Vec<bool> = Vec::new();
        let mut i: usize = 0;
        while i < n
            invariant
                i <= n,
                visited@.len() == i,
                forall|k: int| 0 <= k < i ==> !#[trigger] visited@[k],
            decreases n - i,
        {
            visited.push(false);
            i = i + 1;
        }
        let mut m: usize = 0;
        assert(plan_views(plans@) =~= all_routes_spec(q, starts, max_transfers as int, 0));
        while m < origin_routes.len()
            invariant
                m <= origin_routes.len(),
                n == self.entries().len(),
                codes_distinct(self.entries()),
                dest@.len() == n,
                q == self.quest(dest@, destination@),
                starts == positions(origin_routes@),
                forall|a: int| 0 <= a < origin_routes@.len() ==> (#[trigger] origin_routes@[a]) < n,
                visited@.len() == n,
                forall|k: int| 0 <= k < n ==> !#[trigger] visited@[k],
                plan_views(plans@) == all_routes_spec(q, starts, max_transfers as int, m as int),
                forall|i: int|
                    0 <= i < plans@.len() ==> good_plan(
                        #[trigger] plan_views(plans@)[i],
                        budget(max_transfers as int) + 1,
                    ),
            decreases origin_routes.len() - m,
        {
            let start: usize = origin_routes[m];
            assert(starts[m as int] == start);
            let mut current_plan: RoutePlan = RoutePlan::new();
            visited.set(start, true);
            let ghost before = plan_views(plans@);
            let ghost marked = visited@;
            proof {
                assert(marked =~= Seq::new(q.entries.len(), |i: int| i == starts[m + 1 - 1]));
                assert(current_plan@ == empty_plan());
                assert(path_ok(self.entries(), start as int, marked, current_plan@));
            }
            self.explore_route_path(
                start,
                dest,
                destination,
                max_transfers,
                &mut visited,
                &mut current_plan,
                &mut plans,
            );
            visited.set(start, false);
            proof {
                assert(plan_views(plans@) == before + explore_spec(
                    q,
                    starts[m + 1 - 1],
                    max_transfers as int,
                    marked,
                    empty_plan(),
                ));
                assert(all_routes_spec(q, starts, max_transfers as int, m + 1) == before
                    + explore_spec(
                    q,
                    starts[m + 1 - 1],
                    max_transfers as int,
                    Seq::new(q.entries.len(), |i: int| i == starts[m + 1 - 1]),
                    empty_plan(),
                ));
            }
            m = m + 1;
        }
        if plans.len() == 0 {
            return Err(SearchError::NoValidPath);
        }
        Ok(plans)
    }

    /// Up to three plans from `origin` to `destination`: at most
    /// `max_transfers` changes between routes that have a vertex within
    /// `max_route_distance` of the two ends, fewest transfers first and, among
    /// those, shortest first. No plan has more than `max_transfers`
    /// transfers (none where that is negative) or a route twice.
    pub fn find_routes_to_destination(
        &self,
        origin: GeoPoint,
        destination: GeoPoint,
        max_transfers: i32,
        max_route_distance: u64,
    ) -> (r: Result<Vec<RoutePlan>, SearchError>)
        ensures
            match self.search_spec(
                origin@,
                destination@,
                max_transfers as int,
                max_route_distance as int,
            ) {
                Ok(best) => r is Ok && plan_views(r->Ok_0@) == best && 1 <= r->Ok_0@.len() <= 3,
                Err(e) => r == Err::<Vec<RoutePlan>, SearchError>(e),
            },
            r matches Ok(plans) ==> forall|i: int|
                0 <= i < plans@.len() ==> (#[trigger] plans@[i])@.transfers_count <= budget(
                    max_transfers as int,
                ) && plans@[i]@.transfers_count == plans@[i]@.routes.len() - 1
                    && plan_codes_distinct(plans@[i]@.routes) && plans@[i]@.consistent(),
            r matches Ok(plans) ==> forall|a: int, b: int|
                0 <= a < b < plans@.len() ==> no_later(
                    (#[trigger] plans@[a])@,
                    (#[trigger] plans@[b])@,
                ),
    {
        let n: usize = self.route_count();
        let origin_flags: Vec<bool> = self.mark_nearby(origin, max_route_distance);
        let origin_routes: Vec<usize> = flagged_positions(&origin_flags);
        proof {
            lemma_none_flagged(origin_flags@, n as int);
        }
        if origin_routes.len() == 0 {
            return Err(SearchError::NoRoutesNearOrigin);
        }
        let dest: Vec<bool> = self.mark_nearby(destination, max_route_distance);
        let destination_routes: Vec<usize> = flagged_positions(&dest);
        proof {
            lemma_none_flagged(dest@, n as int);
        }
        if destination_routes.len() == 0 {
            return Err(SearchError::NoRoutesNearDestination);
        }
        let found: Result<Vec<RoutePlan>, SearchError> = self.find_all_possible_routes(
            &origin_routes,
            &dest,
            destination,
            max_transfers,
        );
        let plans: Vec<RoutePlan> = match found {
            Ok(plans) => plans,
            Err(e) => {
                return Err(e);
            },
        };
        let ghost all = plan_views(plans@);
        assert(all == self.routes_found(
            origin@,
            destination@,
            max_transfers as int,
            max_route_distance as int,
        ));
        let mut ranks: Vec<u128> = Vec::new();
        let mut i: usize = 0;
        while i < plans.len()
            invariant
                i <= plans.len(),
                all == plan_views(plans@),
                ranks@.len() == i,
                forall|k: int|
                    0 <= k < plans@.len() ==> good_plan(
                        #[trigger] plan_views(plans@)[k],
                        budget(max_transfers as int) + 1,
                    ),
                forall|k: int| 0 <= k < i ==> (#[trigger] ranks@[k]) as int == plan_rank(all[k]),
            decreases plans.len() - i,
        {
            assert(good_plan(plan_views(plans@)[i as int], budget(max_transfers as int) + 1));
            ranks.push(rank_of(&plans[i]));
            i = i + 1;
        }
        assert(rank_values(ranks@) =~= all.map_values(|p: PlanView| plan_rank(p)));
        let best: Vec<RoutePlan> = pick_ranked(&plans, &ranks, 3);
        proof {
            assert forall|i: int| 0 <= i < best@.len() implies (#[trigger] best@[i])@.transfers_count
                <= budget(max_transfers as int) && best@[i]@.transfers_count
                == best@[i]@.routes.len() - 1 && plan_codes_distinct(best@[i]@.routes)
                && best@[i]@.consistent() by {
                lemma_sorted_order(rank_values(ranks@), all.len() as int);
                let j = sorted_order(rank_values(ranks@), all.len() as int)[i];
                assert(plan_views(best@)[i] == all[j]);
                assert(good_plan(plan_views(plans@)[j], budget(max_transfers as int) + 1));
            }
            assert forall|i: int| 0 <= i < all.len() implies 0 <= (#[trigger] all[i]).total_distance
                <= u64::MAX by {
                assert(all[i] == plans@[i]@);
            }
            lemma_best_plans_ordered(all, 3);
            assert forall|a: int, b: int| 0 <= a < b < best@.len() implies no_later(
                (#[trigger] best@[a])@,
                (#[trigger] best@[b])@,
            ) by {
                assert(plan_views(best@)[a] == best@[a]@);
                assert(plan_views(best@)[b] == best@[b]@);
            }
        }
        Ok(best)
    }

    /// What a search returns: that no route is near the origin; else that
    /// none is near the destination; else that the walk found no plan; else
    /// the three best of the plans it found.
    pub open spec fn search_spec(
        &self,
        origin: (int, int),
        destination: (int, int),
        max_transfers: int,
        max_route_distance: int,
    ) -> Result<Seq<PlanView>, SearchError> {
        if !near_flags(self.entries(), origin, max_route_distance).contains(true) {
            Err(SearchError::NoRoutesNearOrigin)
        } else if !near_flags(self.entries(), destination, max_route_distance).contains(true) {
            Err(SearchError::NoRoutesNearDestination)
        } else if self.routes_found(origin, destination, max_transfers, max_route_distance).len()
            == 0 {
            Err(SearchError::NoValidPath)
        } else {
            Ok(
                best_plans(
                    self.routes_found(origin, destination, max_transfers, max_route_distance),
                    3,
                ),
            )
        }
    }

    /// All the plans that the walk finds from the routes near `origin` to
    /// those near `destination`, in the order of the walk.
    pub open spec fn routes_found(
        &self,
        origin: (int, int),
        destination: (int, int),
        max_transfers: int,
        max_route_distance: int,
    ) -> Seq<PlanView> {
        let starts = flagged_upto(
            near_flags(self.entries(), origin, max_route_distance),
            self.entries().len() as int,
        );
        all_routes_spec(
            self.quest(near_flags(self.entries(), destination, max_route_distance), destination),
            starts,
            max_transfers,
            starts.len() as int,
        )
    }
}

} // verus!

//! What the bounded walk over the adjacency finds, and how its plans are
//! ordered.

use vstd::prelude::*;
use crate::geometry::{
    coords, distance_spec, has_vertex_within, is_closest_vertex, polyline_distance_spec, MAX_DIST,
};
use crate::model::{PlanView, RoutePlan, RouteSegment, TransferPoint, TransferType};
use crate::ranking::{
    lemma_sorted_order, positions, rank_order, rank_values, ranked_before, sorted_order,
};
use crate::route_index::{codes_distinct, lemma_lookup_own_code, lookup};
use crate::transfers::EntryView;

verus! {

/// What a search walks over: the routes, the transfers out of each, which
/// routes end the walk, and the point to reach.
pub struct Quest {
    pub entries: Seq<EntryView>,
    pub adjacency: Seq<Seq<TransferPoint>>,
    pub dest: Seq<bool>,
    pub destination: (int, int),
}

/// Which routes have a vertex within `radius` of `p`.
pub open spec fn near_flags(entries: Seq<EntryView>, p: (int, int), radius: int) -> Seq<bool> {
    Seq::new(entries.len(), |i: int| has_vertex_within(coords(entries[i].line), p, radius))
}

/// Those of the first `k` positions that are flagged, rising.
pub open spec fn flagged_upto(flags: Seq<bool>, k: int) -> Seq<int>
    decreases k,
{
    if k <= 0 {
        Seq::empty()
    } else if flags[k - 1] {
        flagged_upto(flags, k - 1).push(k - 1)
    } else {
        flagged_upto(flags, k - 1)
    }
}

/// A position among the first `k` is in the flagged ones exactly when it is
/// flagged.
pub proof fn lemma_flagged_upto(flags: Seq<bool>, k: int)
    requires
        0 <= k <= flags.len(),
    ensures
        forall|i: int| 0 <= i < k && flags[i] ==> flagged_upto(flags, k).contains(i),
        forall|a: int|
            0 <= a < flagged_upto(flags, k).len() ==> 0 <= #[trigger] flagged_upto(flags, k)[a] < k
                && flags[flagged_upto(flags, k)[a]],
    decreases k,
{
    if k > 0 {
        lemma_flagged_upto(flags, k - 1);
        let prev = flagged_upto(flags, k - 1);
        let out = flagged_upto(flags, k);
        assert forall|i: int| 0 <= i < k && flags[i] implies out.contains(i) by {
            if i == k - 1 {
                assert(out[out.len() - 1] == i);
            } else {
                let a = choose|a: int| 0 <= a < prev.len() && prev[a] == i;
                assert(out[a] == i);
            }
        }
    }
}

/// The first vertex of `line` among those nearest to `p`.
pub open spec fn closest_vertex_spec(line: Seq<(int, int)>, p: (int, int)) -> int {
    choose|i: int| is_closest_vertex(line, p, i)
}

/// The segment that ends a plan on the route `e`: to its vertex nearest to
/// the destination.
pub open spec fn final_segment_spec(e: EntryView, destination: (int, int)) -> RouteSegment {
    let end = e.line[closest_vertex_spec(coords(e.line), destination)];
    RouteSegment {
        route: e.properties,
        transfer_point: TransferPoint {
            location: end,
            bus_stop: None,
            distance_to_route: distance_spec(end@, destination) as u64,
            transfer_type: TransferType::Direct,
            from_route: e.properties.code,
            to_route: None,
        },
        transfer_type: TransferType::Direct,
        segment_distance: polyline_distance_spec(coords(e.line), end@) as u64,
    }
}

/// The segment that leaves the route `e` by the transfer `t`.
pub open spec fn transfer_segment_spec(e: EntryView, t: TransferPoint) -> RouteSegment {
    RouteSegment {
        route: e.properties,
        transfer_point: t,
        transfer_type: t.transfer_type,
        segment_distance: polyline_distance_spec(coords(e.line), t.location@) as u64,
    }
}

/// `plan` with `seg` appended.
pub open spec fn plan_with(plan: PlanView, seg: RouteSegment) -> PlanView {
    PlanView {
        routes: plan.routes.push(seg),
        total_distance: plan.total_distance + seg.segment_distance,
        transfers_count: plan.routes.len() as int,
        is_interdepartmental: plan.is_interdepartmental,
    }
}

/// The plan without segments.
pub open spec fn empty_plan() -> PlanView {
    PlanView {
        routes: Seq::empty(),
        total_distance: 0,
        transfers_count: 0,
        is_interdepartmental: false,
    }
}

/// The plans found from the route `cur` on, in the order of the walk: on a
/// route that ends the walk, the plan closed there and nothing beyond; else,
/// while transfers are left, what each transfer out of `cur` leads to.
pub open spec fn explore_spec(
    q: Quest,
    cur: int,
    transfers_left: int,
    visited: Seq<bool>,
    plan: PlanView,
) -> Seq<PlanView>
    decreases transfers_left, 1int, 0int,
{
    if q.dest[cur] && q.entries[cur].line.len() > 0 {
        seq![plan_with(plan, final_segment_spec(q.entries[cur], q.destination))]
    } else if transfers_left <= 0 {
        Seq::empty()
    } else {
        explore_transfers_spec(q, cur, transfers_left, visited, plan, 0)
    }
}

/// The plans found through the transfers out of `cur` from the `k`-th on: a
/// transfer is taken where it leads to a known route that the path has not
/// been on.
pub open spec fn explore_transfers_spec(
    q: Quest,
    cur: int,
    transfers_left: int,
    visited: Seq<bool>,
    plan: PlanView,
    k: int,
) -> Seq<PlanView>
    decreases transfers_left, 0int, q.adjacency[cur].len() - k,
{
    if transfers_left <= 0 || k < 0 || k >= q.adjacency[cur].len() {
        Seq::empty()
    } else {
        let t = q.adjacency[cur][k];
        let rest = explore_transfers_spec(q, cur, transfers_left, visited, plan, k + 1);
        match next_route(q.entries, t, visited) {
            Some(next) => explore_spec(
                q,
                next,
                transfers_left - 1,
                visited.update(next, true),
                plan_with(plan, transfer_segment_spec(q.entries[cur], t)),
            ) + rest,
            None => rest,
        }
    }
}

/// The route that the transfer `t` leads to, where it is known and the path
/// has not been on it.
pub open spec fn next_route(entries: Seq<EntryView>, t: TransferPoint, visited: Seq<bool>) -> Option<
    int,
> {
    match t.to_route {
        Some(code) => match lookup(entries, code@) {
            Some(next) => if visited[next] {
                None
            } else {
                Some(next)
            },
            None => None,
        },
        None => None,
    }
}

/// The plans found from the first `m` of `starts`, each walked with no
/// other route visited.
pub open spec fn all_routes_spec(q: Quest, starts: Seq<int>, max_transfers: int, m: int) -> Seq<
    PlanView,
>
    decreases m,
{
    if m <= 0 {
        Seq::empty()
    } else {
        all_routes_spec(q, starts, max_transfers, m - 1) + explore_spec(
            q,
            starts[m - 1],
            max_transfers,
            Seq::new(q.entries.len(), |i: int| i == starts[m - 1]),
            empty_plan(),
        )
    }
}

/// No two segments are on the same route.
pub open spec fn plan_codes_distinct(routes: Seq<RouteSegment>) -> bool {
    forall|a: int, b: int|
        0 <= a < b < routes.len() ==> (#[trigger] routes[a]).route.code@ != (
        #[trigger] routes[b]).route.code@
}

/// What holds of a path while it is walked: the plan's totals agree with its
/// segments, its routes differ from each other and from `cur`, and all of
/// them, and `cur`, are marked as visited.
pub open spec fn path_ok(entries: Seq<EntryView>, cur: int, visited: Seq<bool>, plan: PlanView) -> bool {
    &&& plan.consistent()
    &&& plan_codes_distinct(plan.routes)
    &&& plan.total_distance <= plan.routes.len() * MAX_DIST
    &&& visited[cur]
    &&& forall|k: int|
        0 <= k < plan.routes.len() ==> (#[trigger] plan.routes[k]).route.code@
            != entries[cur].properties.code@
    &&& forall|k: int|
        0 <= k < plan.routes.len() ==> route_visited(
            entries,
            visited,
            (#[trigger] plan.routes[k]).route.code@,
        )
}

/// The route with the code `code` is known and marked as visited.
pub open spec fn route_visited(entries: Seq<EntryView>, visited: Seq<bool>, code: Seq<char>) -> bool {
    lookup(entries, code) matches Some(j) && 0 <= j < visited.len() && visited[j]
}

/// A finished plan: at least one and at most `limit` segments, no route
/// twice, and totals that agree with the segments.
pub open spec fn good_plan(plan: PlanView, limit: int) -> bool {
    &&& plan.consistent()
    &&& plan_codes_distinct(plan.routes)
    &&& 1 <= plan.routes.len() <= limit
    &&& plan.total_distance <= plan.routes.len() * MAX_DIST
}

/// The mathematical values of a list of plans.
pub open spec fn plan_views(plans: Seq<RoutePlan>) -> Seq<PlanView> {
    plans.map_values(|p: RoutePlan| p@)
}

/// The number of transfers still allowed: none where the budget is negative.
pub open spec fn budget(transfers_left: int) -> int {
    if transfers_left > 0 {
        transfers_left
    } else {
        0
    }
}

/// A rank that orders plans by transfers first and distance second.
pub open spec fn plan_rank(p: PlanView) -> int {
    p.transfers_count * 0x1_0000_0000_0000_0000 + p.total_distance
}

/// The first `limit` of `all` in the order of `ranks`: lowest rank first,
/// and among equal ranks what came first.
pub open spec fn ranked(all: Seq<PlanView>, ranks: Seq<int>, limit: int) -> Seq<PlanView> {
    let order = sorted_order(ranks, all.len() as int);
    Seq::new(
        if limit < all.len() {
            limit as nat
        } else {
            all.len()
        },
        |a: int| all[order[a]],
    )
}

/// The first `limit` of `all` when ordered by transfers, then by distance;
/// plans equal in both keep their order.
pub open spec fn best_plans(all: Seq<PlanView>, limit: int) -> Seq<PlanView> {
    ranked(all, all.map_values(|p: PlanView| plan_rank(p)), limit)
}

/// Copies of the first `limit` of `plans` in the order of `ranks`.
pub fn pick_ranked(plans: &Vec<RoutePlan>, ranks: &Vec<u128>, limit: usize) -> (r: Vec<RoutePlan>)
    requires
        ranks@.len() == plans@.len(),
    ensures
        plan_views(r@) == ranked(plan_views(plans@), rank_values(ranks@), limit as int),
        r@.len() == if limit < plans@.len() {
            limit as nat
        } else {
            plans@.len()
        },
{
    let order: Vec<usize> = rank_order(ranks);
    let ghost all = plan_views(plans@);
    let ghost target = ranked(all, rank_values(ranks@), limit as int);
    let mut best: Vec<RoutePlan> = Vec::new();
    let mut a: usize = 0;
    while a < order.len() && a < limit
        invariant
            a <= order@.len(),
            a <= limit,
            order@.len() == plans@.len(),
            all == plan_views(plans@),
            target == ranked(all, rank_values(ranks@), limit as int),
            positions(order@) == sorted_order(rank_values(ranks@), all.len() as int),
            forall|k: int| 0 <= k < order@.len() ==> (#[trigger] order@[k]) < plans@.len(),
            best@.len() == a,
            forall|k: int| 0 <= k < a ==> (#[trigger] best@[k])@ == target[k],
        decreases order.len() - a,
    {
        let j: usize = order[a];
        assert(positions(order@)[a as int] == j);
        assert(plan_views(plans@)[j as int] == plans@[j as int]@);
        best.push(plans[j].clone());
        a = a + 1;
    }
    assert(plan_views(best@) =~= target);
    best
}

/// The flagged positions, rising.
pub fn flagged_positions(flags: &Vec<bool>) -> (r: Vec<usize>)
    ensures
        positions(r@) == flagged_upto(flags@, flags@.len() as int),
        forall|a: int| 0 <= a < r@.len() ==> (#[trigger] r@[a]) < flags@.len(),
{
    let mut out: Vec<usize> = Vec::new();
    let mut k: usize = 0;
    assert(positions(out@) =~= flagged_upto(flags@, 0));
    while k < flags.len()
        invariant
            k <= flags.len(),
            positions(out@) == flagged_upto(flags@, k as int),
            forall|a: int| 0 <= a < out@.len() ==> (#[trigger] out@[a]) < flags@.len(),
        decreases flags.len() - k,
    {
        let ghost before = positions(out@);
        if flags[k] {
            out.push(k);
            assert(positions(out@) =~= before.push(k as int));
        }
        k = k + 1;
    }
    out
}

/// Taking a transfer from `cur` to a route `next` that the path has not been
/// on keeps the path in order.
pub proof fn lemma_step_keeps_path(
    entries: Seq<EntryView>,
    cur: int,
    next: int,
    visited: Seq<bool>,
    plan: PlanView,
    seg: RouteSegment,
)
    requires
        codes_distinct(entries),
        0 <= cur < entries.len(),
        0 <= next < entries.len(),
        visited.len() == entries.len(),
        !visited[next],
        path_ok(entries, cur, visited, plan),
        seg.route == entries[cur].properties,
        seg.segment_distance <= MAX_DIST,
        plan.routes.len() < i32::MAX,
    ensures
        path_ok(entries, next, visited.update(next, true), plan_with(plan, seg)),
{
    let marked = visited.update(next, true);
    let grown = plan_with(plan, seg);
    lemma_lookup_own_code(entries, cur);
    lemma_lookup_own_code(entries, next);
    assert(grown.routes.drop_last() == plan.routes);
    assert(grown.consistent());
    assert(cur != next);
    assert(entries[cur].properties.code@ != entries[next].properties.code@);
    assert forall|a: int, b: int| 0 <= a < b < grown.routes.len() implies (#[trigger] grown.routes[a]).route.code@
        != (#[trigger] grown.routes[b]).route.code@ by {
        if b == plan.routes.len() {
            assert(grown.routes[a] == plan.routes[a]);
        } else {
            assert(grown.routes[a] == plan.routes[a]);
            assert(grown.routes[b] == plan.routes[b]);
        }
    }
    assert forall|k: int| 0 <= k < grown.routes.len() implies (#[trigger] grown.routes[k]).route.code@
        != entries[next].properties.code@ by {
        if k < plan.routes.len() {
            assert(grown.routes[k] == plan.routes[k]);
            assert(route_visited(entries, visited, plan.routes[k].route.code@));
        }
    }
    assert forall|k: int| 0 <= k < grown.routes.len() implies route_visited(
        entries,
        marked,
        (#[trigger] grown.routes[k]).route.code@,
    ) by {
        if k < plan.routes.len() {
            assert(grown.routes[k] == plan.routes[k]);
            assert(route_visited(entries, visited, plan.routes[k].route.code@));
        }
    }
    assert(grown.total_distance <= grown.routes.len() * MAX_DIST) by (nonlinear_arith)
        requires
            plan.total_distance <= plan.routes.len() * MAX_DIST,
            seg.segment_distance <= MAX_DIST,
            grown.total_distance == plan.total_distance + seg.segment_distance,
            grown.routes.len() == plan.routes.len() + 1,
    ;
}

/// The rank of a plan as a number.
pub fn rank_of(plan: &RoutePlan) -> (r: u128)
    requires
        plan@.transfers_count >= 0,
    ensures
        r == plan_rank(plan@),
{
    (plan.transfers_count as u128) * 0x1_0000_0000_0000_0000u128 + (plan.total_distance as u128)
}

/// A lower rank is fewer transfers, or as many and a shorter distance.
pub proof fn lemma_plan_rank_orders(a: PlanView, b: PlanView)
    requires
        0 <= a.total_distance <= u64::MAX,
        0 <= b.total_distance <= u64::MAX,
    ensures
        plan_rank(a) < plan_rank(b) <==> (a.transfers_count < b.transfers_count || (
        a.transfers_count == b.transfers_count && a.total_distance < b.total_distance)),
        plan_rank(a) == plan_rank(b) <==> (a.transfers_count == b.transfers_count
            && a.total_distance == b.total_distance),
{
    let m = 0x1_0000_0000_0000_0000int;
    if a.transfers_count < b.transfers_count {
        assert(a.transfers_count * m + m <= b.transfers_count * m) by (nonlinear_arith)
            requires
                a.transfers_count + 1 <= b.transfers_count,
                m > 0,
        ;
    } else if b.transfers_count < a.transfers_count {
        assert(b.transfers_count * m + m <= a.transfers_count * m) by (nonlinear_arith)
            requires
                b.transfers_count + 1 <= a.transfers_count,
                m > 0,
        ;
    }
}

/// No position is flagged exactly when the flagged positions are none.
pub proof fn lemma_none_flagged(flags: Seq<bool>, k: int)
    requires
        0 <= k <= flags.len(),
    ensures
        flagged_upto(flags, k).len() == 0 <==> forall|i: int| 0 <= i < k ==> !#[trigger] flags[i],
    decreases k,
{
    if k > 0 {
        lemma_none_flagged(flags, k - 1);
    }
}

/// Whether `a` comes no later than `b` when plans are ordered by transfers
/// and then by distance.
pub open spec fn no_later(a: PlanView, b: PlanView) -> bool {
    a.transfers_count < b.transfers_count || (a.transfers_count == b.transfers_count
        && a.total_distance <= b.total_distance)
}

/// The best plans are plans of `all`, as many as the limit allows, each no
/// later in the order than those that follow it.
pub proof fn lemma_best_plans_ordered(all: Seq<PlanView>, limit: int)
    requires
        0 <= limit,
        forall|i: int| 0 <= i < all.len() ==> 0 <= (#[trigger] all[i]).total_distance <= u64::MAX,
    ensures
        best_plans(all, limit).len() == if limit < all.len() {
            limit
        } else {
            all.len() as int
        },
        forall|a: int|
            0 <= a < best_plans(all, limit).len() ==> all.contains(#[trigger] best_plans(all, limit)[a]),
        forall|a: int, b: int|
            0 <= a < b < best_plans(all, limit).len() ==> no_later(
                #[trigger] best_plans(all, limit)[a],
                #[trigger] best_plans(all, limit)[b],
            ),
{
    let ranks = all.map_values(|p: PlanView| plan_rank(p));
    let order = sorted_order(ranks, all.len() as int);
    let best = best_plans(all, limit);
    lemma_sorted_order(ranks, all.len() as int);
    assert forall|a: int| 0 <= a < best.len() implies all.contains(#[trigger] best[a]) by {
        assert(0 <= order[a] < all.len());
        assert(best[a] == all[order[a]]);
    }
    assert forall|a: int, b: int| 0 <= a < b < best.len() implies no_later(
        #[trigger] best[a],
        #[trigger] best[b],
    ) by {
        assert(0 <= order[a] < all.len());
        assert(0 <= order[b] < all.len());
        assert(ranked_before(ranks, order[a], order[b]));
        lemma_plan_rank_orders(all[order[a]], all[order[b]]);
    }
}

} // verus!

//! What the walk finds, said without the walk: the plans of all chains of
//! transfers from a start route to a route that ends the walk.

use vstd::prelude::*;
use crate::model::PlanView;
use crate::spatial_search::SpatialSearch;
use crate::walk::{
    all_routes_spec, budget, empty_plan, explore_spec, explore_transfers_spec, final_segment_spec,
    flagged_upto, lemma_flagged_upto, near_flags, next_route, plan_with, transfer_segment_spec,
    Quest,
};

verus! {

/// Whether the walk ends on the route `r`: it is marked as near the
/// destination and has a vertex to end at.
pub open spec fn ends_walk(q: Quest, r: int) -> bool {
    q.dest[r] && q.entries[r].line.len() > 0
}

/// Whether `routes`, joined by the transfers at the positions `hops`, are a
/// chain from `routes[0]`: the last route ends the walk and none before it
/// does; each transfer is one out of the route before it and leads to a
/// known route that is neither marked in `visited` nor earlier in the chain.
pub open spec fn is_chain(q: Quest, visited: Seq<bool>, routes: Seq<int>, hops: Seq<int>) -> bool
    decreases hops.len(),
{
    if routes.len() != hops.len() + 1 {
        false
    } else if hops.len() == 0 {
        ends_walk(q, routes[0])
    } else {
        &&& !ends_walk(q, routes[0])
        &&& 0 <= hops[0] < q.adjacency[routes[0]].len()
        &&& next_route(q.entries, q.adjacency[routes[0]][hops[0]], visited) == Some(routes[1])
        &&& is_chain(q, visited.update(routes[1], true), routes.drop_first(), hops.drop_first())
    }
}

/// The plan of a chain, appended to `plan`: a segment for each transfer, and
/// the segment that ends on the last route.
pub open spec fn chain_plan(q: Quest, routes: Seq<int>, hops: Seq<int>, plan: PlanView) -> PlanView
    decreases hops.len(),
{
    if hops.len() == 0 {
        plan_with(plan, final_segment_spec(q.entries[routes[0]], q.destination))
    } else {
        chain_plan(
            q,
            routes.drop_first(),
            hops.drop_first(),
            plan_with(
                plan,
                transfer_segment_spec(q.entries[routes[0]], q.adjacency[routes[0]][hops[0]]),
            ),
        )
    }
}

/// The routes of a chain from a visited route are known routes, none of them
/// twice, and none but the first was visited before.
pub proof fn lemma_chain_routes_distinct(q: Quest, visited: Seq<bool>, routes: Seq<int>, hops: Seq<int>)
    requires
        visited.len() == q.entries.len(),
        is_chain(q, visited, routes, hops),
        0 <= routes[0] < visited.len(),
        visited[routes[0]],
    ensures
        forall|m: int| 0 <= m < routes.len() ==> 0 <= #[trigger] routes[m] < q.entries.len(),
        forall|m: int| 1 <= m < routes.len() ==> !visited[#[trigger] routes[m]],
        forall|a: int, b: int| 0 <= a < b < routes.len() ==> routes[a] != routes[b],
    decreases hops.len(),
{
    if hops.len() > 0 {
        let marked = visited.update(routes[1], true);
        let rest = routes.drop_first();
        let rest_hops = hops.drop_first();
        assert(rest[0] == routes[1]);
        lemma_chain_routes_distinct(q, marked, rest, rest_hops);
        assert forall|m: int| 0 <= m < routes.len() implies 0 <= #[trigger] routes[m]
            < q.entries.len() by {
            if m >= 1 {
                assert(rest[m - 1] == routes[m]);
            }
        }
        assert forall|m: int| 1 <= m < routes.len() implies !visited[#[trigger] routes[m]] by {
            if m >= 2 {
                assert(rest[m - 1] == routes[m]);
                assert(!marked[rest[m - 1]]);
            }
        }
        assert forall|a: int, b: int| 0 <= a < b < routes.len() implies routes[a] != routes[b] by {
            assert(rest[b - 1] == routes[b]);
            if a == 0 {
                if b >= 2 {
                    assert(!marked[rest[b - 1]]);
                }
            } else {
                assert(rest[a - 1] == routes[a]);
            }
        }
    }
}

/// Each plan that the walk finds from `cur` is the plan of a chain from
/// `cur` with no more transfers than are left.
pub proof fn lemma_explore_sound(
    q: Quest,
    cur: int,
    transfers_left: int,
    visited: Seq<bool>,
    plan: PlanView,
    i: int,
) -> (c: (Seq<int>, Seq<int>))
    requires
        0 <= i < explore_spec(q, cur, transfers_left, visited, plan).len(),
    ensures
        c.0.len() > 0,
        c.0[0] == cur,
        is_chain(q, visited, c.0, c.1),
        c.1.len() <= budget(transfers_left),
        explore_spec(q, cur, transfers_left, visited, plan)[i] == chain_plan(q, c.0, c.1, plan),
    decreases transfers_left, 1int, 0int,
{
    if ends_walk(q, cur) {
        (seq![cur], Seq::empty())
    } else {
        lemma_transfers_sound(q, cur, transfers_left, visited, plan, 0, i)
    }
}

/// Each plan that the walk finds through the transfers out of `cur` from the
/// `k`-th on is the plan of a chain whose first transfer is one of these.
pub proof fn lemma_transfers_sound(
    q: Quest,
    cur: int,
    transfers_left: int,
    visited: Seq<bool>,
    plan: PlanView,
    k: int,
    i: int,
) -> (c: (Seq<int>, Seq<int>))
    requires
        !ends_walk(q, cur),
        0 <= k,
        0 <= i < explore_transfers_spec(q, cur, transfers_left, visited, plan, k).len(),
    ensures
        c.0.len() > 0,
        c.0[0] == cur,
        is_chain(q, visited, c.0, c.1),
        1 <= c.1.len() <= transfers_left,
        c.1[0] >= k,
        explore_transfers_spec(q, cur, transfers_left, visited, plan, k)[i] == chain_plan(
            q,
            c.0,
            c.1,
            plan,
        ),
    decreases transfers_left, 0int, q.adjacency[cur].len() - k,
{
    let t = q.adjacency[cur][k];
    let rest = explore_transfers_spec(q, cur, transfers_left, visited, plan, k + 1);
    match next_route(q.entries, t, visited) {
        Some(next) => {
            let marked = visited.update(next, true);
            let grown = plan_with(plan, transfer_segment_spec(q.entries[cur], t));
            let here = explore_spec(q, next, transfers_left - 1, marked, grown);
            if i < here.len() {
                let tail = lemma_explore_sound(q, next, transfers_left - 1, marked, grown, i);
                let routes = seq![cur] + tail.0;
                let hops = seq![k] + tail.1;
                assert(routes.drop_first() =~= tail.0);
                assert(hops.drop_first() =~= tail.1);
                assert(routes[1] == tail.0[0]);
                assert((here + rest)[i] == here[i]);
                (routes, hops)
            } else {
                let c = lemma_transfers_sound(
                    q,
                    cur,
                    transfers_left,
                    visited,
                    plan,
                    k + 1,
                    i - here.len(),
                );
                assert((here + rest)[i] == rest[i - here.len()]);
                c
            }
        },
        None => lemma_transfers_sound(q, cur, transfers_left, visited, plan, k + 1, i),
    }
}

/// The plan of each chain from `cur` with no more transfers than are left
/// is among the plans that the walk finds from `cur`.
pub proof fn lemma_explore_complete(
    q: Quest,
    cur: int,
    transfers_left: int,
    visited: Seq<bool>,
    plan: PlanView,
    routes: Seq<int>,
    hops: Seq<int>,
)
    requires
        routes.len() > 0,
        routes[0] == cur,
        is_chain(q, visited, routes, hops),
        hops.len() <= budget(transfers_left),
    ensures
        explore_spec(q, cur, transfers_left, visited, plan).contains(
            chain_plan(q, routes, hops, plan),
        ),
    decreases transfers_left, 1int, 0int,
{
    if hops.len() == 0 {
        assert(explore_spec(q, cur, transfers_left, visited, plan)[0] == chain_plan(
            q,
            routes,
            hops,
            plan,
        ));
    } else {
        lemma_transfers_complete(q, cur, transfers_left, visited, plan, routes, hops, 0);
    }
}

/// The plan of each chain from `cur` whose first transfer is the `k`-th or a
/// later one is among the plans found through these transfers.
pub proof fn lemma_transfers_complete(
    q: Quest,
    cur: int,
    transfers_left: int,
    visited: Seq<bool>,
    plan: PlanView,
    routes: Seq<int>,
    hops: Seq<int>,
    k: int,
)
    requires
        routes.len() > 0,
        routes[0] == cur,
        is_chain(q, visited, routes, hops),
        1 <= hops.len() <= transfers_left,
        0 <= k <= hops[0],
    ensures
        explore_transfers_spec(q, cur, transfers_left, visited, plan, k).contains(
            chain_plan(q, routes, hops, plan),
        ),
    decreases transfers_left, 0int, q.adjacency[cur].len() - k,
{
    let t = q.adjacency[cur][k];
    let rest = explore_transfers_spec(q, cur, transfers_left, visited, plan, k + 1);
    let wanted = chain_plan(q, routes, hops, plan);
    let found = explore_transfers_spec(q, cur, transfers_left, visited, plan, k);
    if k == hops[0] {
        let next = routes[1];
        let marked = visited.update(next, true);
        let grown = plan_with(plan, transfer_segment_spec(q.entries[cur], t));
        let here = explore_spec(q, next, transfers_left - 1, marked, grown);
        assert(routes.drop_first()[0] == next);
        lemma_explore_complete(
            q,
            next,
            transfers_left - 1,
            marked,
            grown,
            routes.drop_first(),
            hops.drop_first(),
        );
        let j = choose|j: int| 0 <= j < here.len() && here[j] == wanted;
        assert(found == here + rest);
        assert(found[j] == wanted);
    } else {
        lemma_transfers_complete(q, cur, transfers_left, visited, plan, routes, hops, k + 1);
        let j = choose|j: int| 0 <= j < rest.len() && rest[j] == wanted;
        match next_route(q.entries, t, visited) {
            Some(next) => {
                let here = explore_spec(
                    q,
                    next,
                    transfers_left - 1,
                    visited.update(next, true),
                    plan_with(plan, transfer_segment_spec(q.entries[cur], t)),
                );
                assert(found == here + rest);
                assert(found[here.len() + j] == wanted);
            },
            None => {
                assert(found[j] == wanted);
            },
        }
    }
}

/// The marks at the start of a walk from `start`: that route and no other.
pub open spec fn only(q: Quest, start: int) -> Seq<bool> {
    Seq::new(q.entries.len(), |i: int| i == start)
}

/// Each plan found from the first `m` of `starts` is the plan of a chain
/// from one of them, with no more transfers than allowed.
pub proof fn lemma_found_plans_are_chains(
    q: Quest,
    starts: Seq<int>,
    max_transfers: int,
    m: int,
    i: int,
) -> (c: (int, Seq<int>, Seq<int>))
    requires
        0 <= i < all_routes_spec(q, starts, max_transfers, m).len(),
    ensures
        0 <= c.0 < m,
        c.1.len() > 0,
        c.1[0] == starts[c.0],
        is_chain(q, only(q, starts[c.0]), c.1, c.2),
        c.2.len() <= budget(max_transfers),
        all_routes_spec(q, starts, max_transfers, m)[i] == chain_plan(q, c.1, c.2, empty_plan()),
    decreases m,
{
    let before = all_routes_spec(q, starts, max_transfers, m - 1);
    let marks = Seq::new(q.entries.len(), |i: int| i == starts[m - 1]);
    assert(marks =~= only(q, starts[m - 1]));
    let here = explore_spec(q, starts[m - 1], max_transfers, marks, empty_plan());
    if i < before.len() {
        let c = lemma_found_plans_are_chains(q, starts, max_transfers, m - 1, i);
        assert((before + here)[i] == before[i]);
        c
    } else {
        let c = lemma_explore_sound(
            q,
            starts[m - 1],
            max_transfers,
            marks,
            empty_plan(),
            i - before.len(),
        );
        assert((before + here)[i] == here[i - before.len()]);
        (m - 1, c.0, c.1)
    }
}

/// The plan of each chain from one of the first `m` of `starts`, with no
/// more transfers than allowed, is among the plans found from them.
pub proof fn lemma_every_chain_is_found(
    q: Quest,
    starts: Seq<int>,
    max_transfers: int,
    m: int,
    a: int,
    routes: Seq<int>,
    hops: Seq<int>,
)
    requires
        0 <= a < m,
        routes.len() > 0,
        routes[0] == starts[a],
        is_chain(q, only(q, starts[a]), routes, hops),
        hops.len() <= budget(max_transfers),
    ensures
        all_routes_spec(q, starts, max_transfers, m).contains(
            chain_plan(q, routes, hops, empty_plan()),
        ),
    decreases m,
{
    let wanted = chain_plan(q, routes, hops, empty_plan());
    let all = all_routes_spec(q, starts, max_transfers, m);
    let before = all_routes_spec(q, starts, max_transfers, m - 1);
    let marks = Seq::new(q.entries.len(), |i: int| i == starts[m - 1]);
    let here = explore_spec(q, starts[m - 1], max_transfers, marks, empty_plan());
    assert(all == before + here);
    if a == m - 1 {
        assert(marks =~= only(q, starts[a]));
        lemma_explore_complete(q, starts[a], max_transfers, marks, empty_plan(), routes, hops);
        let j = choose|j: int| 0 <= j < here.len() && here[j] == wanted;
        assert(all[before.len() + j] == wanted);
    } else {
        lemma_every_chain_is_found(q, starts, max_transfers, m - 1, a, routes, hops);
        let j = choose|j: int| 0 <= j < before.len() && before[j] == wanted;
        assert(all[j] == wanted);
    }
}

/// What a search finds are the plans of chains: each plan found starts on a
/// route with a vertex within reach of the origin, changes by transfers of
/// the adjacency through routes it has not been on, ends on the first of
/// them that has a vertex within reach of the destination, and makes no more
/// transfers than allowed.
pub proof fn lemma_search_finds_chains(
    search: SpatialSearch,
    origin: (int, int),
    destination: (int, int),
    max_transfers: int,
    max_route_distance: int,
    i: int,
) -> (c: (Seq<int>, Seq<int>))
    requires
        0 <= i < search.routes_found(origin, destination, max_transfers, max_route_distance).len(),
    ensures
        c.0.len() > 0,
        0 <= c.0[0] < search.entries().len(),
        near_flags(search.entries(), origin, max_route_distance)[c.0[0]],
        is_chain(
            search.quest(
                near_flags(search.entries(), destination, max_route_distance),
                destination,
            ),
            only(
                search.quest(
                    near_flags(search.entries(), destination, max_route_distance),
                    destination,
                ),
                c.0[0],
            ),
            c.0,
            c.1,
        ),
        c.1.len() <= budget(max_transfers),
        search.routes_found(origin, destination, max_transfers, max_route_distance)[i]
            == chain_plan(
            search.quest(
                near_flags(search.entries(), destination, max_route_distance),
                destination,
            ),
            c.0,
            c.1,
            empty_plan(),
        ),
{
    let flags = near_flags(search.entries(), origin, max_route_distance);
    let starts = flagged_upto(flags, search.entries().len() as int);
    let q = search.quest(near_flags(search.entries(), destination, max_route_distance), destination);
    lemma_flagged_upto(flags, search.entries().len() as int);
    let c = lemma_found_plans_are_chains(q, starts, max_transfers, starts.len() as int, i);
    (c.1, c.2)
}

/// A search finds the plan of every chain: of each that starts on a route
/// with a vertex within reach of the origin and makes no more transfers than
/// allowed.
pub proof fn lemma_search_finds_every_chain(
    search: SpatialSearch,
    origin: (int, int),
    destination: (int, int),
    max_transfers: int,
    max_route_distance: int,
    routes: Seq<int>,
    hops: Seq<int>,
)
    requires
        routes.len() > 0,
        0 <= routes[0] < search.entries().len(),
        near_flags(search.entries(), origin, max_route_distance)[routes[0]],
        is_chain(
            search.quest(
                near_flags(search.entries(), destination, max_route_distance),
                destination,
            ),
            only(
                search.quest(
                    near_flags(search.entries(), destination, max_route_distance),
                    destination,
                ),
                routes[0],
            ),
            routes,
            hops,
        ),
        hops.len() <= budget(max_transfers),
    ensures
        search.routes_found(origin, destination, max_transfers, max_route_distance).contains(
            chain_plan(
                search.quest(
                    near_flags(search.entries(), destination, max_route_distance),
                    destination,
                ),
                routes,
                hops,
                empty_plan(),
            ),
        ),
{
    let flags = near_flags(search.entries(), origin, max_route_distance);
    let starts = flagged_upto(flags, search.entries().len() as int);
    let q = search.quest(near_flags(search.entries(), destination, max_route_distance), destination);
    lemma_flagged_upto(flags, search.entries().len() as int);
    let a = choose|a: int| 0 <= a < starts.len() && starts[a] == routes[0];
    lemma_every_chain_is_found(q, starts, max_transfers, starts.len() as int, a, routes, hops);
}

} // verus!

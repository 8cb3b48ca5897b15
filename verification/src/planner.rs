//! The planner: validates the two points, widens the search by what the
//! validation found, searches, and ranks the plans by score.

use vstd::prelude::*;
use crate::errors::{PlanningError, ValidationError};
use crate::geo_validation::{
    differ, nearest_boundary_dist_sq, root_or_none, touched_upto, validate_point_spec, BoundaryView,
    GeoValidator, ValidationResult,
};
use crate::geometry::{coords, GeoPoint};
use crate::model::{PlanView, RoutePlan, RouteRequest, RouteSegment, TransferType};
use crate::ranking::rank_values;
use crate::route_index::lookup;
use crate::spatial_search::SpatialSearch;
use crate::walk::{pick_ranked, plan_views, ranked};
use crate::transfers::EntryView;

verus! {

/// How far to look and how much to return.
#[derive(Debug)]
pub struct PlanningConfig {
    /// How far a route may be from a query point, in micro-degrees.
    pub max_route_distance: u64,
    /// How far apart two routes may be at a transfer, in micro-degrees.
    pub max_transfer_distance: u64,
    pub max_transfers: i32,
    pub results_limit: usize,
}

impl Default for PlanningConfig {
    /// About 5 km to a route, about 1 km at a transfer, ten transfers, three
    /// results.
    fn default() -> (r: Self)
        ensures
            r.max_route_distance == 50_000,
            r.max_transfer_distance == 10_000,
            r.max_transfers == 10,
            r.results_limit == 3,
    {
        PlanningConfig {
            max_route_distance: 50_000,
            max_transfer_distance: 10_000,
            max_transfers: 10,
            results_limit: 3,
        }
    }
}

/// Plans itineraries between two points.
pub struct RoutePlanner {
    pub config: PlanningConfig,
    pub validator: GeoValidator,
    pub search: SpatialSearch,
}

/// `d` times `num / den`, rounded down and held to what a distance can be.
pub open spec fn widened(d: int, num: int, den: int) -> int {
    if d * num / den > u64::MAX {
        u64::MAX as int
    } else {
        d * num / den
    }
}

/// `d` times `num / den`, rounded down and held to what a distance can be.
pub fn widen(d: u64, num: u64, den: u64) -> (r: u64)
    requires
        den > 0,
    ensures
        r == widened(d as int, num as int, den as int),
{
    assert(d * num <= 0xffff_ffff_ffff_ffff * 0xffff_ffff_ffff_ffff) by (nonlinear_arith)
        requires
            0 <= d <= 0xffff_ffff_ffff_ffff,
            0 <= num <= 0xffff_ffff_ffff_ffff,
    ;
    let q: u128 = (d as u128) * (num as u128) / (den as u128);
    if q > 0xffff_ffff_ffff_ffff {
        0xffff_ffff_ffff_ffff
    } else {
        q as u64
    }
}

/// The request for a query: the configured distances, both half as large
/// again where the two points lie in different departments, and the route
/// distance a fifth larger again where the origin is less than the transfer
/// distance from a department.
pub open spec fn request_spec(
    config: PlanningConfig,
    origin: GeoPoint,
    destination: GeoPoint,
    is_interdepartmental: bool,
    distance_to_boundary: int,
) -> RouteRequest {
    let route_distance = if is_interdepartmental {
        widened(config.max_route_distance as int, 3, 2)
    } else {
        config.max_route_distance as int
    };
    let transfer_distance = if is_interdepartmental {
        widened(config.max_transfer_distance as int, 3, 2)
    } else {
        config.max_transfer_distance as int
    };
    RouteRequest {
        origin,
        destination,
        max_route_distance: (if distance_to_boundary < config.max_transfer_distance {
            widened(route_distance, 6, 5)
        } else {
            route_distance
        }) as u64,
        max_transfer_distance: transfer_distance as u64,
        max_transfers: config.max_transfers,
    }
}

/// The minutes that a plan takes, rounded up: thirty degrees an hour on the
/// routes, a fifth more where the plan crosses departments, and five
/// minutes for each transfer; never more than fits the result.
pub open spec fn travel_minutes(plan: PlanView) -> int {
    let riding = plan.total_distance * 120 / 1_000_000;
    let base = if riding > i32::MAX {
        i32::MAX as int
    } else {
        riding
    };
    let moving = if plan.is_interdepartmental {
        base * 6 / 5
    } else {
        base
    };
    let minutes = (moving + plan.transfers_count * 300 + 59) / 60;
    if minutes > i32::MAX {
        i32::MAX as int
    } else {
        minutes
    }
}

/// The minutes that a plan takes, rounded up.
pub fn estimate_travel_time(plan: &RoutePlan) -> (r: i32)
    requires
        plan@.transfers_count >= 0,
    ensures
        r == travel_minutes(plan@),
{
    let riding: u128 = (plan.total_distance as u128) * 120 / 1_000_000;
    let base: i64 = if riding > 0x7fff_ffff {
        0x7fff_ffff
    } else {
        riding as i64
    };
    let moving: i64 = if plan.is_interdepartmental {
        base * 6 / 5
    } else {
        base
    };
    let minutes: i64 = (moving + (plan.transfers_count as i64) * 300 + 59) / 60;
    if minutes > 0x7fff_ffff {
        0x7fff_ffff
    } else {
        minutes as i32
    }
}

/// What a transfer of a tier adds to a score.
pub open spec fn tier_penalty(t: TransferType) -> int {
    match t {
        TransferType::Direct => 0,
        TransferType::Near => 2,
        TransferType::Proximate => 5,
    }
}

/// The sum of the tier penalties of `routes`.
pub open spec fn penalties(routes: Seq<RouteSegment>) -> int
    decreases routes.len(),
{
    if routes.len() == 0 {
        0
    } else {
        penalties(routes.drop_last()) + tier_penalty(routes.last().transfer_type)
    }
}

/// The score of a plan, lower is better, as a whole number of parts of
/// `1 / (5 * max_route_distance)`: ten for each transfer, the total distance
/// over `max_route_distance`, and the tier penalties; the sum times 0.8
/// where the plan crosses departments as the query does, and times 1.2 where
/// it does not.
pub open spec fn score_spec(plan: PlanView, max_route_distance: int, query_crosses: bool) -> int {
    let factor: int = if plan.is_interdepartmental == query_crosses {
        4
    } else {
        6
    };
    factor * ((10 * plan.transfers_count + penalties(plan.routes)) * max_route_distance
        + plan.total_distance)
}

/// Of two plans with the same distance, the same tier penalties and the same
/// agreement with the query, the one with fewer transfers has the lower
/// score.
pub proof fn lemma_fewer_transfers_score_lower(
    a: PlanView,
    b: PlanView,
    max_route_distance: int,
    query_crosses: bool,
)
    requires
        max_route_distance > 0,
        a.total_distance == b.total_distance,
        penalties(a.routes) == penalties(b.routes),
        a.is_interdepartmental == b.is_interdepartmental,
        a.transfers_count < b.transfers_count,
    ensures
        score_spec(a, max_route_distance, query_crosses) < score_spec(
            b,
            max_route_distance,
            query_crosses,
        ),
{
    let pa = 10 * a.transfers_count + penalties(a.routes);
    let pb = 10 * b.transfers_count + penalties(b.routes);
    assert(pa * max_route_distance < pb * max_route_distance) by (nonlinear_arith)
        requires
            pa < pb,
            max_route_distance > 0,
    ;
    let sa = pa * max_route_distance + a.total_distance;
    let sb = pb * max_route_distance + b.total_distance;
    assert(4 * sa < 4 * sb);
    assert(6 * sa < 6 * sb);
}

/// The department names that the route of `seg` touches: those of the
/// departments that contain a vertex of its line.
pub open spec fn segment_departments(
    bs: Seq<BoundaryView>,
    entries: Seq<EntryView>,
    seg: RouteSegment,
) -> Seq<String> {
    match lookup(entries, seg.route.code@) {
        Some(i) => touched_upto(bs, coords(entries[i].line), bs.len() as int),
        None => Seq::empty(),
    }
}

/// The department names that the routes of the first `k` segments touch.
pub open spec fn plan_departments(
    bs: Seq<BoundaryView>,
    entries: Seq<EntryView>,
    routes: Seq<RouteSegment>,
    k: int,
) -> Seq<String>
    decreases k,
{
    if k <= 0 {
        Seq::empty()
    } else {
        plan_departments(bs, entries, routes, k - 1) + segment_departments(
            bs,
            entries,
            routes[k - 1],
        )
    }
}

/// Whether `names` holds two different names.
pub open spec fn crosses(names: Seq<String>) -> bool {
    exists|i: int| 0 <= i < names.len() && (#[trigger] names[i])@ != names[0]@
}

/// `plan` with its flag set to whether its routes touch more than one
/// department.
pub open spec fn flagged(bs: Seq<BoundaryView>, entries: Seq<EntryView>, plan: PlanView) -> PlanView {
    PlanView {
        routes: plan.routes,
        total_distance: plan.total_distance,
        transfers_count: plan.transfers_count,
        is_interdepartmental: crosses(
            plan_departments(bs, entries, plan.routes, plan.routes.len() as int),
        ),
    }
}

/// Whether `names` holds two different names.
pub fn names_differ(names: &Vec<String>) -> (r: bool)
    ensures
        r == crosses(names@),
{
    let mut k: usize = 1;
    while k < names.len()
        invariant
            1 <= k,
            forall|i: int| 0 <= i < k && i < names@.len() ==> (#[trigger] names@[i])@ == names@[0]@,
        decreases names.len() - k,
    {
        if !(names[k] == names[0]) {
            return true;
        }
        k = k + 1;
    }
    false
}

/// A copy of `plan` with its flag set to `flag`.
pub fn with_flag(plan: &RoutePlan, flag: bool) -> (r: RoutePlan)
    ensures
        r@ == (PlanView {
            routes: plan@.routes,
            total_distance: plan@.total_distance,
            transfers_count: plan@.transfers_count,
            is_interdepartmental: flag,
        }),
{
    let mut out: RoutePlan = plan.clone();
    out.is_interdepartmental = flag;
    out
}

impl RoutePlanner {
    /// The planner over `validator` and `search`, with `config` or, without
    /// one, the default configuration.
    pub fn new(validator: GeoValidator, search: SpatialSearch, config: Option<PlanningConfig>) -> (r:
        Self)
        ensures
            r.validator == validator,
            r.search == search,
            match config {
                Some(c) => r.config == c,
                None => r.config.max_route_distance == 50_000 && r.config.max_transfer_distance
                    == 10_000 && r.config.max_transfers == 10 && r.config.results_limit == 3,
            },
    {
        let config: PlanningConfig = match config {
            Some(c) => c,
            None => PlanningConfig::default(),
        };
        RoutePlanner { config, validator, search }
    }

    /// The validator.
    pub fn validator(&self) -> (r: &GeoValidator)
        ensures
            *r == self.validator,
    {
        &self.validator
    }

    /// The search.
    pub fn search(&self) -> (r: &SpatialSearch)
        ensures
            *r == self.search,
    {
        &self.search
    }

    /// The configuration.
    pub fn config(&self) -> (r: &PlanningConfig)
        ensures
            *r == self.config,
    {
        &self.config
    }

    /// The request for a query, widened by what the validation found.
    pub fn create_route_request(
        &self,
        origin: GeoPoint,
        destination: GeoPoint,
        validation: &ValidationResult,
    ) -> (r: RouteRequest)
        ensures
            r == request_spec(
                self.config,
                origin,
                destination,
                validation.is_interdepartmental,
                validation.distance_to_boundary as int,
            ),
    {
        let mut route_distance: u64 = self.config.max_route_distance;
        let mut transfer_distance: u64 = self.config.max_transfer_distance;
        if validation.is_interdepartmental {
            route_distance = widen(route_distance, 3, 2);
            transfer_distance = widen(transfer_distance, 3, 2);
        }
        if validation.distance_to_boundary < self.config.max_transfer_distance {
            route_distance = widen(route_distance, 6, 5);
        }
        RouteRequest {
            origin,
            destination,
            max_route_distance: route_distance,
            max_transfer_distance: transfer_distance,
            max_transfers: self.config.max_transfers,
        }
    }

    /// The score of `plan` for the query that `validation` describes, as a
    /// whole number of parts of `1 / (5 * max_route_distance)`.
    pub fn calculate_plan_score(&self, plan: &RoutePlan, validation: &ValidationResult) -> (r: u128)
        requires
            plan@.transfers_count >= 0,
            plan@.routes.len() <= 0x8000_0000,
        ensures
            r == score_spec(
                plan@,
                self.config.max_route_distance as int,
                validation.is_interdepartmental,
            ),
    {
        let query_crosses: bool = validation.is_interdepartmental;
        let mut pen: u128 = 0;
        let mut k: usize = 0;
        assert(plan@.routes.take(0) =~= Seq::empty());
        while k < plan.routes.len()
            invariant
                k <= plan.routes.len(),
                plan@.routes.len() <= 0x8000_0000,
                pen == penalties(plan@.routes.take(k as int)),
                pen <= 5 * k,
            decreases plan.routes.len() - k,
        {
            assert(plan@.routes.take(k + 1).drop_last() =~= plan@.routes.take(k as int));
            let add: u128 = match plan.routes[k].transfer_type {
                TransferType::Direct => 0,
                TransferType::Near => 2,
                TransferType::Proximate => 5,
            };
            pen = pen + add;
            k = k + 1;
        }
        assert(plan@.routes.take(plan@.routes.len() as int) =~= plan@.routes);
        let weight: u128 = 10 * (plan.transfers_count as u128) + pen;
        let mrd: u128 = self.config.max_route_distance as u128;
        assert(weight * mrd <= 0x10_0000_0000 * 0xffff_ffff_ffff_ffff) by (nonlinear_arith)
            requires
                0 <= weight <= 0x10_0000_0000,
                0 <= mrd <= 0xffff_ffff_ffff_ffff,
        ;
        let base: u128 = weight * mrd + (plan.total_distance as u128);
        if plan.is_interdepartmental == query_crosses {
            4 * base
        } else {
            6 * base
        }
    }

    /// Whether the routes of `plan` touch more than one department.
    pub fn plan_crosses_departments(&self, plan: &RoutePlan) -> (r: bool)
        ensures
            r == crosses(
                plan_departments(
                    self.validator.boundaries(),
                    self.search.entries(),
                    plan@.routes,
                    plan@.routes.len() as int,
                ),
            ),
    {
        let ghost bs = self.validator.boundaries();
        let ghost ev = self.search.entries();
        let mut names: Vec<String> = Vec::new();
        let mut k: usize = 0;
        while k < plan.routes.len()
            invariant
                k <= plan.routes.len(),
                bs == self.validator.boundaries(),
                ev == self.search.entries(),
                names@ == plan_departments(bs, ev, plan@.routes, k as int),
            decreases plan.routes.len() - k,
        {
            let ghost before = names@;
            match self.search.find_route(&plan.routes[k].route.code) {
                Some(i) => {
                    let mut touched: Vec<String> = self.validator.departments_touched(
                        &self.search.route(i).line,
                    );
                    names.append(&mut touched);
                },
                None => {
                    assert(names@ =~= before + Seq::<String>::empty());
                },
            }
            k = k + 1;
        }
        names_differ(&names)
    }

    /// Orders `plans` by score, best first; plans of equal score keep their
    /// order.
    pub fn optimize_results(&self, validation: &ValidationResult, plans: &mut Vec<RoutePlan>)
        requires
            forall|i: int|
                0 <= i < old(plans)@.len() ==> (#[trigger] old(plans)@[i])@.transfers_count >= 0
                    && old(plans)@[i]@.routes.len() <= 0x8000_0000,
        ensures
            plan_views(final(plans)@) == self.ordered_by_score(
                plan_views(old(plans)@),
                validation.is_interdepartmental,
                old(plans)@.len() as int,
            ),
            final(plans)@.len() == old(plans)@.len(),
    {
        let ordered: Vec<RoutePlan> = self.best_by_score(validation, plans, plans.len());
        *plans = ordered;
    }

    /// The first `limit` of `all` in the order of their scores.
    pub open spec fn ordered_by_score(&self, all: Seq<PlanView>, query_crosses: bool, limit: int) -> Seq<
        PlanView,
    > {
        ranked(
            all,
            all.map_values(
                |p: PlanView| score_spec(p, self.config.max_route_distance as int, query_crosses),
            ),
            limit,
        )
    }

    /// Copies of the first `limit` of `plans` in the order of their scores.
    pub fn best_by_score(&self, validation: &ValidationResult, plans: &Vec<RoutePlan>, limit: usize) -> (r:
        Vec<RoutePlan>)
        requires
            forall|i: int|
                0 <= i < plans@.len() ==> (#[trigger] plans@[i])@.transfers_count >= 0
                    && plans@[i]@.routes.len() <= 0x8000_0000,
        ensures
            plan_views(r@) == self.ordered_by_score(
                plan_views(plans@),
                validation.is_interdepartmental,
                limit as int,
            ),
            r@.len() == if limit < plans@.len() {
                limit as nat
            } else {
                plans@.len()
            },
    {
        let ghost all = plan_views(plans@);
        let ghost query_crosses = validation.is_interdepartmental;
        let mut scores: Vec<u128> = Vec::new();
        let mut k: usize = 0;
        while k < plans.len()
            invariant
                k <= plans.len(),
                all == plan_views(plans@),
                query_crosses == validation.is_interdepartmental,
                scores@.len() == k,
                forall|i: int|
                    0 <= i < plans@.len() ==> (#[trigger] plans@[i])@.transfers_count >= 0
                        && plans@[i]@.routes.len() <= 0x8000_0000,
                forall|i: int|
                    0 <= i < k ==> (#[trigger] scores@[i]) as int == score_spec(
                        all[i],
                        self.config.max_route_distance as int,
                        query_crosses,
                    ),
            decreases plans.len() - k,
        {
            assert(all[k as int] == plans@[k as int]@);
            scores.push(self.calculate_plan_score(&plans[k], validation));
            k = k + 1;
        }
        assert(rank_values(scores@) =~= all.map_values(
            |p: PlanView| score_spec(p, self.config.max_route_distance as int, query_crosses),
        ));
        pick_ranked(plans, &scores, limit)
    }

    /// What `plan_route` returns: the first validation error of the two
    /// points, the origin first; `InvalidCoordinates` where one of them is in
    /// no department; the error of the search; else the plans of the search,
    /// each flagged by the departments it touches, best score first, as many
    /// as the configuration allows.
    pub open spec fn plan_route_spec(&self, origin: GeoPoint, destination: GeoPoint) -> Result<
        Seq<PlanView>,
        PlanningError,
    > {
        let bs = self.validator.boundaries();
        match validate_point_spec(bs, origin@) {
            Err(e) => Err(PlanningError::ValidationError(e)),
            Ok(o) => match validate_point_spec(bs, destination@) {
                Err(e) => Err(PlanningError::ValidationError(e)),
                Ok(d) => if o is None || d is None {
                    Err(PlanningError::ValidationError(ValidationError::InvalidCoordinates))
                } else {
                    let request = request_spec(
                        self.config,
                        origin,
                        destination,
                        differ(o, d),
                        root_or_none(nearest_boundary_dist_sq(bs, origin@, bs.len() as int)),
                    );
                    match self.search.search_spec(
                        origin@,
                        destination@,
                        request.max_transfers as int,
                        request.max_route_distance as int,
                    ) {
                        Err(e) => Err(PlanningError::SearchError(e)),
                        Ok(found) => Ok(
                            self.ordered_by_score(
                                found.map_values(
                                    |p: PlanView| flagged(bs, self.search.entries(), p),
                                ),
                                differ(o, d),
                                self.config.results_limit as int,
                            ),
                        ),
                    }
                },
            },
        }
    }

    /// Plans from `origin` to `destination`, best first.
    pub fn plan_route(&self, origin: GeoPoint, destination: GeoPoint) -> (r: Result<
        Vec<RoutePlan>,
        PlanningError,
    >)
        ensures
            match self.plan_route_spec(origin, destination) {
                Ok(best) => r is Ok && plan_views(r->Ok_0@) == best,
                Err(e) => r == Err::<Vec<RoutePlan>, PlanningError>(e),
            },
    {
        let ghost bs = self.validator.boundaries();
        let validation: ValidationResult = match self.validator.validate_route(origin, destination) {
            Ok(v) => v,
            Err(e) => {
                return Err(PlanningError::ValidationError(e));
            },
        };
        if !validation.is_valid {
            return Err(PlanningError::ValidationError(ValidationError::InvalidCoordinates));
        }
        let request: RouteRequest = self.create_route_request(origin, destination, &validation);
        let found: Vec<RoutePlan> = match self.search.find_routes_to_destination(
            request.origin,
            request.destination,
            request.max_transfers,
            request.max_route_distance,
        ) {
            Ok(plans) => plans,
            Err(e) => {
                return Err(PlanningError::SearchError(e));
            },
        };
        let ghost found_views = plan_views(found@);
        let ghost target = found_views.map_values(
            |p: PlanView| flagged(bs, self.search.entries(), p),
        );
        let mut plans: Vec<RoutePlan> = Vec::new();
        let mut k: usize = 0;
        while k < found.len()
            invariant
                k <= found.len(),
                bs == self.validator.boundaries(),
                found_views == plan_views(found@),
                target == found_views.map_values(
                    |p: PlanView| flagged(bs, self.search.entries(), p),
                ),
                plans@.len() == k,
                forall|i: int| 0 <= i < k ==> (#[trigger] plans@[i])@ == target[i],
                forall|i: int|
                    0 <= i < found@.len() ==> (#[trigger] found@[i])@.transfers_count
                        == found@[i]@.routes.len() - 1 && found@[i]@.consistent(),
            decreases found.len() - k,
        {
            assert(found_views[k as int] == found@[k as int]@);
            let flag: bool = self.plan_crosses_departments(&found[k]);
            plans.push(with_flag(&found[k], flag));
            k = k + 1;
        }
        assert(plan_views(plans@) =~= target);
        if plans.len() == 0 {
            return Err(PlanningError::NoValidRoutes);
        }
        assert forall|i: int| 0 <= i < plans@.len() implies (#[trigger] plans@[i])@.transfers_count
            >= 0 && plans@[i]@.routes.len() <= 0x8000_0000 by {
            assert(plans@[i]@ == target[i]);
            assert(found_views[i] == found@[i]@);
        }
        Ok(self.best_by_score(&validation, &plans, self.config.results_limit))
    }
}

} // verus!

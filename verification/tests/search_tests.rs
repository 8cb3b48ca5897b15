use route_planner::errors::SearchError;
use route_planner::geometry::GeoPoint;
use route_planner::model::{
    BusStop, GeoJsonGeometry, Route, RoutePlan, RouteProperties, RouteSegment, RouteSubtype,
    TransferPoint, TransferType,
};
use route_planner::ranking::rank_order;
use route_planner::cache::{CacheEntry, RouteIntersectionCache};
use route_planner::spatial_search::SpatialSearch;
use route_planner::transfers::{
    find_best_transfer, find_direct_transfer, find_near_transfer, find_proximate_transfer,
    nearest_pair, RouteEntry, NEAR_THRESHOLD, PROXIMATE_THRESHOLD,
};

fn pt(lon: i64, lat: i64) -> GeoPoint {
    GeoPoint::new(lon, lat).unwrap()
}

fn props(code: &str) -> RouteProperties {
    RouteProperties {
        code: code.to_string(),
        name: format!("Ruta {}", code),
        department: "SAN SALVADOR".to_string(),
        subtype: RouteSubtype::Urban,
    }
}

fn route(code: &str, line: Vec<GeoPoint>) -> Route {
    Route { properties: props(code), geometry: GeoJsonGeometry::LineString { coordinates: line } }
}

fn stop(code: &str, lon: i64, lat: i64) -> BusStop {
    BusStop { route_code: code.to_string(), location: pt(lon, lat), name: Some(format!("Parada {}", code)) }
}

fn entry(code: &str, line: Vec<GeoPoint>, stops: Vec<BusStop>) -> RouteEntry {
    RouteEntry { properties: props(code), line, stops }
}

fn codes(plan: &RoutePlan) -> Vec<String> {
    plan.routes.iter().map(|s| s.route.code.clone()).collect()
}

/// Two routes that share the stop at (-89.20, 13.70).
fn two_routes() -> SpatialSearch {
    let routes = vec![
        route("R1", vec![pt(-89_220_000, 13_690_000), pt(-89_200_000, 13_700_000)]),
        route("R2", vec![pt(-89_200_000, 13_700_000), pt(-89_180_000, 13_710_000)]),
    ];
    let stops = vec![stop("R1", -89_200_000, 13_700_000), stop("R2", -89_200_000, 13_700_000)];
    SpatialSearch::new(routes, stops, None)
}

/// A chain of `n` routes along the equator, each 10 000 long, each sharing
/// its end stop with the start of the next.
fn chain(n: i64) -> SpatialSearch {
    let mut routes = Vec::new();
    let mut stops = Vec::new();
    for i in 0..n {
        let code = format!("C{}", i);
        routes.push(route(&code, vec![pt(i * 10_000, 0), pt((i + 1) * 10_000, 0)]));
        stops.push(stop(&code, i * 10_000, 0));
        stops.push(stop(&code, (i + 1) * 10_000, 0));
    }
    SpatialSearch::new(routes, stops, None)
}

#[test]
fn nearest_pair_is_the_first_of_the_nearest() {
    let a = vec![pt(0, 0), pt(10, 0), pt(20, 0)];
    let b = vec![pt(0, 7), pt(10, 3), pt(20, 3)];
    assert_eq!(nearest_pair(&a, &b), Some((1, 1, 9)));
    assert_eq!(nearest_pair(&b, &a), Some((1, 1, 9)));
    assert_eq!(nearest_pair(&a, &Vec::new()), None);
    assert_eq!(nearest_pair(&Vec::new(), &b), None);
    // all four pairs are 5 apart: the first of the first list with the first of the second
    assert_eq!(nearest_pair(&vec![pt(0, 0), pt(6, 8)], &vec![pt(3, 4), pt(3, 4)]), Some((0, 0, 25)));
}

#[test]
fn direct_transfer_at_a_shared_stop() {
    let a = entry("A", vec![pt(0, 0)], vec![stop("A", 5, 5), stop("A", 100, 100), stop("A", 7, 7)]);
    let b = entry("B", vec![pt(0, 0)], vec![stop("B", 7, 7), stop("B", 100, 100)]);
    let t = find_direct_transfer(&a, &b).unwrap();
    assert_eq!(t.transfer_type, TransferType::Direct);
    assert_eq!(t.distance_to_route, 0);
    // the first stop of A that B also has
    assert_eq!(t.location, pt(100, 100));
    assert_eq!(t.bus_stop, Some(stop("A", 100, 100)));
    assert_eq!(t.from_route, "A");
    assert_eq!(t.to_route, Some("B".to_string()));
}

#[test]
fn no_direct_transfer_without_a_shared_stop() {
    let a = entry("A", vec![pt(0, 0)], vec![stop("A", 5, 5)]);
    let b = entry("B", vec![pt(0, 0)], vec![stop("B", 5, 6)]);
    assert_eq!(find_direct_transfer(&a, &b), None);
    let bare = entry("C", vec![pt(0, 0)], Vec::new());
    assert_eq!(find_direct_transfer(&a, &bare), None);
    assert_eq!(find_direct_transfer(&bare, &a), None);
}

#[test]
fn near_transfer_is_strictly_under_the_threshold() {
    let a = entry("A", Vec::new(), vec![stop("A", 0, 0)]);
    let at = entry("B", Vec::new(), vec![stop("B", 3_000, 4_000)]);
    let under = entry("B", Vec::new(), vec![stop("B", 3_000, 3_999)]);
    assert_eq!(find_near_transfer(&a, &at, NEAR_THRESHOLD), None);
    let t = find_near_transfer(&a, &under, NEAR_THRESHOLD).unwrap();
    assert_eq!(t.transfer_type, TransferType::Near);
    assert_eq!(t.distance_to_route, 4_999);
    assert_eq!(t.location, pt(0, 0));
    assert_eq!(t.bus_stop, Some(stop("A", 0, 0)));
    assert_eq!(t.to_route, Some("B".to_string()));
}

#[test]
fn near_transfer_takes_the_nearest_pair() {
    let a = entry("A", Vec::new(), vec![stop("A", 0, 0), stop("A", 1_000, 0)]);
    let b = entry("B", Vec::new(), vec![stop("B", 0, 900), stop("B", 1_000, 300)]);
    let t = find_near_transfer(&a, &b, NEAR_THRESHOLD).unwrap();
    assert_eq!(t.location, pt(1_000, 0));
    assert_eq!(t.distance_to_route, 300);
}

#[test]
fn proximate_transfer_between_vertices() {
    let a = entry("A", vec![pt(0, 0), pt(20_000, 0)], Vec::new());
    let b = entry("B", vec![pt(20_000, 6_000), pt(40_000, 6_000)], Vec::new());
    let t = find_proximate_transfer(&a, &b, PROXIMATE_THRESHOLD).unwrap();
    assert_eq!(t.transfer_type, TransferType::Proximate);
    assert_eq!(t.location, pt(20_000, 0));
    assert_eq!(t.bus_stop, None);
    assert_eq!(t.distance_to_route, 6_000);
    let far = entry("B", vec![pt(20_000, 10_000)], Vec::new());
    assert_eq!(find_proximate_transfer(&a, &far, PROXIMATE_THRESHOLD), None);
    let none = entry("B", Vec::new(), Vec::new());
    assert_eq!(find_proximate_transfer(&a, &none, PROXIMATE_THRESHOLD), None);
}

#[test]
fn best_transfer_prefers_the_better_tier() {
    // vertices touch (proximate at 0), stops are 1 000 apart (near), and a shared stop exists
    let a = entry("A", vec![pt(0, 0)], vec![stop("A", 50_000, 0), stop("A", 60_000, 0)]);
    let b = entry("B", vec![pt(0, 0)], vec![stop("B", 60_000, 0)]);
    assert_eq!(find_best_transfer(&a, &b).unwrap().transfer_type, TransferType::Direct);
    let b_near = entry("B", vec![pt(0, 0)], vec![stop("B", 51_000, 0)]);
    let near = find_best_transfer(&a, &b_near).unwrap();
    assert_eq!(near.transfer_type, TransferType::Near);
    assert_eq!(near.distance_to_route, 1_000);
    let b_far = entry("B", vec![pt(0, 0)], vec![stop("B", 70_000, 0)]);
    let prox = find_best_transfer(&a, &b_far).unwrap();
    assert_eq!(prox.transfer_type, TransferType::Proximate);
    assert_eq!(prox.distance_to_route, 0);
    let apart = entry("B", vec![pt(0, 10_000)], vec![stop("B", 70_000, 0)]);
    assert_eq!(find_best_transfer(&a, &apart), None);
}

#[test]
fn precomputation_gives_the_same_adjacency_again() {
    let mut search = chain(4);
    let before: Vec<Vec<TransferPoint>> =
        (0..search.route_count()).map(|i| search.transfers(i).clone()).collect();
    search.precalculate_intersections();
    let again: Vec<Vec<TransferPoint>> =
        (0..search.route_count()).map(|i| search.transfers(i).clone()).collect();
    assert_eq!(before, again);
    assert_eq!(before.len(), 4);
    assert_eq!(before[0].len(), 1);
    assert_eq!(before[1].len(), 2);
    assert_eq!(before[1][0].to_route, Some("C0".to_string()));
    assert_eq!(before[1][1].to_route, Some("C2".to_string()));
    assert_eq!(before[1][0].transfer_type, TransferType::Direct);
}

#[test]
fn routes_are_indexed_by_code() {
    let routes = vec![
        route("A", vec![pt(0, 0)]),
        route("B", vec![pt(1, 1)]),
        route("A", vec![pt(2, 2), pt(3, 3)]),
    ];
    let stops = vec![stop("B", 1, 1), stop("A", 2, 2), stop("Z", 9, 9), stop("A", 3, 3)];
    let search = SpatialSearch::new(routes, stops, None);
    assert_eq!(search.route_count(), 2);
    assert_eq!(search.route(0).properties.code, "A");
    // the later route with the code takes the place of the earlier
    assert_eq!(search.route(0).line, vec![pt(2, 2), pt(3, 3)]);
    assert_eq!(search.route(0).stops, vec![stop("A", 2, 2), stop("A", 3, 3)]);
    assert_eq!(search.route(1).properties.code, "B");
    assert_eq!(search.find_route(&"B".to_string()), Some(1));
    assert_eq!(search.find_route(&"Z".to_string()), None);
}

#[test]
fn a_shape_that_is_no_line_has_no_vertices() {
    let routes = vec![Route {
        properties: props("P"),
        geometry: GeoJsonGeometry::Point { coordinates: pt(0, 0) },
    }];
    let search = SpatialSearch::new(routes, Vec::new(), None);
    assert_eq!(search.route_count(), 1);
    assert!(search.route(0).line.is_empty());
    assert!(search.find_nearby_routes(pt(0, 0), 1_000).is_empty());
}

#[test]
fn potential_intersections_by_bounding_box() {
    let routes = vec![
        route("A", vec![pt(0, 0), pt(10_000, 10_000)]),
        route("B", vec![pt(30_000, 30_000), pt(90_000, 90_000)]),
        route("C", vec![pt(30_001, 0), pt(90_000, 10_000)]),
        route("D", Vec::new()),
        route("E", vec![pt(-50_000, 5_000), pt(50_000, 5_000)]),
    ];
    let search = SpatialSearch::new(routes, Vec::new(), None);
    // both boxes reach 10 000 further on every side: a gap of 20 000 closes, one of 20 001 does not
    assert_eq!(search.find_potential_intersections(0), vec![0, 1, 4]);
    assert_eq!(search.find_potential_intersections(1), vec![0, 1, 2]);
    assert_eq!(search.find_potential_intersections(2), vec![1, 2, 4]);
    assert_eq!(search.find_potential_intersections(3), Vec::<usize>::new());
    // E lies 25 000 below B, and cuts through the boxes of A and C
    assert_eq!(search.find_potential_intersections(4), vec![0, 2, 4]);
}

#[test]
fn routes_that_cross_between_their_vertices_are_compared() {
    // A runs along the equator, B crosses it half way; they share the stop at the crossing
    let routes = vec![
        route("A", vec![pt(0, 0), pt(1_000_000, 0)]),
        route("B", vec![pt(500_000, -1_000_000), pt(500_000, 1_000_000)]),
    ];
    let stops = vec![stop("A", 500_000, 0), stop("B", 500_000, 0)];
    let search = SpatialSearch::new(routes, stops, None);
    assert_eq!(search.find_potential_intersections(0), vec![0, 1]);
    assert_eq!(search.find_potential_intersections(1), vec![0, 1]);
    let out_of_a = search.transfers(0);
    assert_eq!(out_of_a.len(), 1);
    assert_eq!(out_of_a[0].transfer_type, TransferType::Direct);
    assert_eq!(out_of_a[0].location, pt(500_000, 0));
    assert_eq!(out_of_a[0].distance_to_route, 0);
    assert_eq!(out_of_a[0].to_route, Some("B".to_string()));
    assert_eq!(search.transfers(1)[0].to_route, Some("A".to_string()));
    let plans = search.find_routes_to_destination(pt(0, 0), pt(500_000, 1_000_000), 1, 1_000).unwrap();
    assert_eq!(plans.len(), 1);
    assert_eq!(codes(&plans[0]), vec!["A".to_string(), "B".to_string()]);
}

#[test]
fn a_cache_is_taken_as_it_is() {
    let routes = vec![route("A", vec![pt(0, 0)]), route("B", vec![pt(0, 0)])];
    let kept = TransferPoint {
        location: pt(5, 5),
        bus_stop: None,
        distance_to_route: 77,
        transfer_type: TransferType::Near,
        from_route: "B".to_string(),
        to_route: Some("A".to_string()),
    };
    let cache = RouteIntersectionCache::new(
        vec![
            CacheEntry { route_code: "B".to_string(), transfers: vec![kept.clone()] },
            CacheEntry { route_code: "X".to_string(), transfers: vec![kept.clone(), kept.clone()] },
        ],
        1_700_000_000,
    );
    assert_eq!(cache.version, 1);
    assert_eq!(cache.last_updated, 1_700_000_000);
    let search = SpatialSearch::new(routes, Vec::new(), Some(cache));
    assert!(search.transfers(0).is_empty());
    assert_eq!(search.transfers(1), &vec![kept]);
}

#[test]
fn test_find_nearby_routes() {
    let search = two_routes();
    // within reach of the first vertex of R1 only
    assert_eq!(search.find_nearby_routes(pt(-89_221_000, 13_690_000), 5_000), vec![0]);
    // the shared vertex is a little over 22 360 from R1's start
    assert_eq!(search.find_nearby_routes(pt(-89_220_000, 13_690_000), 22_361), vec![0, 1]);
    assert_eq!(search.find_nearby_routes(pt(-89_220_000, 13_690_000), 22_360), vec![0]);
    assert_eq!(search.find_nearby_routes(pt(0, 0), 50_000), Vec::<usize>::new());
    assert_eq!(search.mark_nearby(pt(-89_180_000, 13_710_000), 5_000), vec![false, true]);
}

#[test]
fn test_route_finding() {
    let search = two_routes();
    let plans = search
        .find_routes_to_destination(pt(-89_220_000, 13_690_500), pt(-89_180_000, 13_709_500), 1, 5_000)
        .unwrap();
    assert_eq!(plans.len(), 1);
    let plan = &plans[0];
    assert_eq!(plan.transfers_count, 1);
    assert_eq!(codes(plan), vec!["R1".to_string(), "R2".to_string()]);
    let change = &plan.routes[0];
    assert_eq!(change.transfer_type, TransferType::Direct);
    assert_eq!(change.transfer_point.transfer_type, TransferType::Direct);
    assert_eq!(change.transfer_point.distance_to_route, 0);
    assert_eq!(change.transfer_point.location, pt(-89_200_000, 13_700_000));
    assert_eq!(change.transfer_point.from_route, "R1");
    assert_eq!(change.transfer_point.to_route, Some("R2".to_string()));
    assert_eq!(change.segment_distance, 0);
    let last = &plan.routes[1];
    assert_eq!(last.transfer_type, TransferType::Direct);
    assert_eq!(last.transfer_point.location, pt(-89_180_000, 13_710_000));
    assert_eq!(last.transfer_point.distance_to_route, 500);
    assert_eq!(last.transfer_point.to_route, None);
    assert_eq!(last.transfer_point.bus_stop, None);
    assert_eq!(plan.total_distance, 0);
    assert!(!plan.is_interdepartmental);
}

#[test]
fn shared_stop_needs_one_transfer() {
    let search = two_routes();
    for max_transfers in [1, 2, 10] {
        let plans = search
            .find_routes_to_destination(
                pt(-89_220_000, 13_690_000),
                pt(-89_180_000, 13_710_000),
                max_transfers,
                5_000,
            )
            .unwrap();
        assert_eq!(plans.len(), 1);
        assert_eq!(plans[0].transfers_count, 1);
        assert_eq!(plans[0].routes[0].transfer_type, TransferType::Direct);
        assert_eq!(plans[0].routes[0].transfer_point.distance_to_route, 0);
    }
}

#[test]
fn shared_stop_without_a_transfer_allowed() {
    let search = two_routes();
    for max_transfers in [0, -1, i32::MIN] {
        let found = search.find_routes_to_destination(
            pt(-89_220_000, 13_690_000),
            pt(-89_180_000, 13_710_000),
            max_transfers,
            5_000,
        );
        assert_eq!(found.unwrap_err(), SearchError::NoValidPath);
    }
}

#[test]
fn single_route_needs_no_transfer() {
    let routes = vec![route("R1", vec![pt(-89_220_000, 13_690_000), pt(-89_200_000, 13_700_000)])];
    let search = SpatialSearch::new(routes, Vec::new(), None);
    let plans = search
        .find_routes_to_destination(pt(-89_230_000, 13_700_000), pt(-89_190_000, 13_690_000), 10, 50_000)
        .unwrap();
    assert_eq!(plans.len(), 1);
    assert_eq!(plans[0].transfers_count, 0);
    assert_eq!(codes(&plans[0]), vec!["R1".to_string()]);
    // ends at the vertex nearest to the destination
    assert_eq!(plans[0].routes[0].transfer_point.location, pt(-89_200_000, 13_700_000));
    assert_eq!(plans[0].routes[0].transfer_point.distance_to_route, 14_142);
    assert_eq!(plans[0].total_distance, 0);
}

#[test]
fn origin_far_from_every_route() {
    let search = two_routes();
    let found =
        search.find_routes_to_destination(pt(-88_000_000, 13_690_000), pt(-89_180_000, 13_710_000), 10, 50_000);
    assert_eq!(found.unwrap_err(), SearchError::NoRoutesNearOrigin);
    // the origin is asked first
    let both = search.find_routes_to_destination(pt(-88_000_000, 13_690_000), pt(0, 0), 10, 50_000);
    assert_eq!(both.unwrap_err(), SearchError::NoRoutesNearOrigin);
}

#[test]
fn destination_far_from_every_route() {
    let search = two_routes();
    let found =
        search.find_routes_to_destination(pt(-89_220_000, 13_690_000), pt(-88_000_000, 13_710_000), 10, 50_000);
    assert_eq!(found.unwrap_err(), SearchError::NoRoutesNearDestination);
}

#[test]
fn no_routes_at_all() {
    let search = SpatialSearch::new(Vec::new(), Vec::new(), None);
    let found = search.find_routes_to_destination(pt(0, 0), pt(1, 1), 10, u64::MAX);
    assert_eq!(found.unwrap_err(), SearchError::NoRoutesNearOrigin);
}

#[test]
fn no_chain_between_the_ends() {
    let routes = vec![route("A", vec![pt(0, 0)]), route("B", vec![pt(500_000, 0)])];
    let search = SpatialSearch::new(routes, Vec::new(), None);
    let found = search.find_routes_to_destination(pt(0, 0), pt(500_000, 0), 10, 1_000);
    assert_eq!(found.unwrap_err(), SearchError::NoValidPath);
}

#[test]
fn plans_stay_within_the_transfer_budget() {
    let search = chain(6);
    let origin = pt(0, 0);
    let destination = pt(60_000, 0);
    for max_transfers in 0..5 {
        let found = search.find_routes_to_destination(origin, destination, max_transfers, 1_000);
        assert_eq!(found.unwrap_err(), SearchError::NoValidPath);
    }
    for max_transfers in 5..9 {
        let plans = search.find_routes_to_destination(origin, destination, max_transfers, 1_000).unwrap();
        assert_eq!(plans.len(), 1);
        assert_eq!(plans[0].transfers_count, 5);
        assert!(plans[0].transfers_count <= max_transfers);
        assert_eq!(plans[0].routes.len(), 6);
    }
}

#[test]
fn plans_hold_no_route_twice() {
    // a triangle of routes around one shared stop, and a fourth that ends the walk
    let hub = (0, 0);
    let routes = vec![
        route("A", vec![pt(hub.0, hub.1), pt(-40_000, 0)]),
        route("B", vec![pt(hub.0, hub.1), pt(0, 40_000)]),
        route("C", vec![pt(hub.0, hub.1), pt(0, -40_000)]),
        route("D", vec![pt(0, 40_000), pt(0, 80_000)]),
    ];
    let stops = vec![
        stop("A", hub.0, hub.1),
        stop("B", hub.0, hub.1),
        stop("C", hub.0, hub.1),
        stop("B", 0, 40_000),
        stop("D", 0, 40_000),
    ];
    let search = SpatialSearch::new(routes, stops, None);
    let plans = search.find_routes_to_destination(pt(-40_000, 0), pt(0, 80_000), 10, 1_000).unwrap();
    assert!(!plans.is_empty());
    for plan in &plans {
        let mut seen = codes(plan);
        let n = seen.len();
        seen.sort();
        seen.dedup();
        assert_eq!(seen.len(), n);
        assert_eq!(plan.transfers_count as usize, plan.routes.len() - 1);
        assert!(plan.transfers_count <= 10);
    }
    // fewest transfers first: A, B, D before A, C, B, D
    assert_eq!(codes(&plans[0]), vec!["A".to_string(), "B".to_string(), "D".to_string()]);
    assert_eq!(plans.len(), 2);
    assert_eq!(
        codes(&plans[1]),
        vec!["A".to_string(), "C".to_string(), "B".to_string(), "D".to_string()]
    );
}

#[test]
fn at_most_three_plans_fewest_transfers_first() {
    // four routes start at the origin; each meets the route that ends the walk
    let mut routes = vec![route("END", vec![pt(100_000, 0), pt(100_000, 1)])];
    let mut stops = Vec::new();
    for (i, code) in ["W", "X", "Y", "Z"].iter().enumerate() {
        let off = i as i64;
        routes.push(route(code, vec![pt(0, off), pt(100_000, 0)]));
        stops.push(stop(code, 100_000, 10 + off));
    }
    stops.push(stop("END", 100_000, 10));
    let search = SpatialSearch::new(routes, stops, None);
    let plans = search.find_routes_to_destination(pt(0, 0), pt(100_000, 1), 3, 5).unwrap();
    assert_eq!(plans.len(), 3);
    for plan in &plans {
        assert_eq!(plan.transfers_count, 0);
    }
    // all four start routes also pass the destination: equal plans keep the order of the routes
    assert_eq!(codes(&plans[0]), vec!["W".to_string()]);
    assert_eq!(codes(&plans[1]), vec!["X".to_string()]);
    assert_eq!(codes(&plans[2]), vec!["Y".to_string()]);
}

#[test]
fn shorter_plans_first_among_equal_transfers() {
    // two routes pass both ends; the stop at which the second is left lies off its line
    let routes = vec![
        route("FAR", vec![pt(0, 0), pt(50_000, 0)]),
        route("MID", vec![pt(0, 0), pt(50_000, 0)]),
        route("END", vec![pt(60_000, 0), pt(70_000, 0)]),
    ];
    let stops = vec![
        stop("FAR", 50_000, 900),
        stop("MID", 50_000, 300),
        stop("END", 50_000, 900),
        stop("END", 50_000, 300),
    ];
    let search = SpatialSearch::new(routes, stops, None);
    let plans = search.find_routes_to_destination(pt(0, 0), pt(70_000, 0), 1, 100).unwrap();
    assert_eq!(plans.len(), 2);
    assert_eq!(codes(&plans[0]), vec!["MID".to_string(), "END".to_string()]);
    assert_eq!(plans[0].total_distance, 300);
    assert_eq!(codes(&plans[1]), vec!["FAR".to_string(), "END".to_string()]);
    assert_eq!(plans[1].total_distance, 900);
}

#[test]
fn rank_order_keeps_equal_ranks_in_place() {
    assert_eq!(rank_order(&vec![5, 1, 5, 0, 1]), vec![3, 1, 4, 0, 2]);
    assert_eq!(rank_order(&Vec::new()), Vec::<usize>::new());
    assert_eq!(rank_order(&vec![u128::MAX, 0]), vec![1, 0]);
    assert_eq!(rank_order(&vec![7, 7, 7]), vec![0, 1, 2]);
}

#[test]
fn plan_totals_follow_the_segments() {
    let seg = |d: u64| RouteSegment {
        route: props("A"),
        transfer_point: TransferPoint {
            location: pt(0, 0),
            bus_stop: None,
            distance_to_route: 0,
            transfer_type: TransferType::Direct,
            from_route: "A".to_string(),
            to_route: None,
        },
        transfer_type: TransferType::Direct,
        segment_distance: d,
    };
    let mut plan = RoutePlan::new();
    assert_eq!((plan.routes.len(), plan.total_distance, plan.transfers_count), (0, 0, 0));
    assert!(!plan.is_interdepartmental);
    plan.add_segment(seg(120));
    assert_eq!((plan.routes.len(), plan.total_distance, plan.transfers_count), (1, 120, 0));
    plan.add_segment(seg(30));
    plan.add_segment(seg(0));
    assert_eq!((plan.routes.len(), plan.total_distance, plan.transfers_count), (3, 150, 2));
    plan.remove_last_segment();
    plan.remove_last_segment();
    assert_eq!((plan.routes.len(), plan.total_distance, plan.transfers_count), (1, 120, 0));
    plan.remove_last_segment();
    assert_eq!((plan.routes.len(), plan.total_distance, plan.transfers_count), (0, 0, 0));
}

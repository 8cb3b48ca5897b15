use route_planner::data_loader::{
    empty_collection, route_from_record, stop_from_record, subtype_of, DataLoader,
};
use route_planner::errors::{PlanningError, SearchError, ValidationError};
use route_planner::geo_validation::{
    classify_point, is_valid_coordinates, GeoValidator, NEAR_BOUNDARY_THRESHOLD,
};
use route_planner::geometry::{GeoPoint, NO_DISTANCE};
use route_planner::model::{
    BusStop, Department, GeoJsonCrs, GeoJsonCrsProperties, GeoJsonFeatureCollection,
    GeoJsonGeometry, Route, RouteProperties, RouteSubtype,
};
use route_planner::polygon::{ring_dist_sq, Polygon};

fn pt(lon: i64, lat: i64) -> GeoPoint {
    GeoPoint::new(lon, lat).unwrap()
}

fn rect(west: i64, south: i64, east: i64, north: i64) -> Vec<GeoPoint> {
    vec![pt(west, south), pt(east, south), pt(east, north), pt(west, north), pt(west, south)]
}

fn collection(features: Vec<Department>) -> GeoJsonFeatureCollection<Department> {
    GeoJsonFeatureCollection {
        kind: "FeatureCollection".to_string(),
        name: "LIM DEPARTAMENTALES".to_string(),
        crs: GeoJsonCrs {
            kind: "name".to_string(),
            properties: GeoJsonCrsProperties { name: "urn:ogc:def:crs:OGC:1.3:CRS84".to_string() },
        },
        features,
    }
}

fn department(name: &str, rings: Vec<Vec<GeoPoint>>) -> Department {
    Department { name: name.to_string(), geometry: GeoJsonGeometry::Polygon { coordinates: rings } }
}

/// Department A west of -89.5, department B east of it.
fn two_departments() -> GeoValidator {
    GeoValidator::new(&collection(vec![
        department("A", vec![rect(-90_000_000, 13_000_000, -89_500_000, 14_000_000)]),
        department("B", vec![rect(-89_500_000, 13_000_000, -89_000_000, 14_000_000)]),
    ]))
}

#[test]
fn test_point_validation() {
    let point = pt(-89_218_200, 13_692_900);
    let empty_collection = GeoJsonFeatureCollection {
        kind: String::new(),
        name: String::new(),
        crs: GeoJsonCrs { kind: String::new(), properties: GeoJsonCrsProperties { name: String::new() } },
        features: vec![],
    };
    let validator = GeoValidator::new(&empty_collection);
    let result = validator.validate_point(point);
    // without departments every point is outside the country
    assert_eq!(result, Err(ValidationError::OutsideCountry));
}

#[test]
fn test_route_validation() {
    let origin = pt(-89_218_200, 13_692_900);
    let destination = pt(-89_182_100, 13_708_400);
    let empty_collection = GeoJsonFeatureCollection {
        kind: String::new(),
        name: String::new(),
        crs: GeoJsonCrs { kind: String::new(), properties: GeoJsonCrsProperties { name: String::new() } },
        features: vec![],
    };
    let validator = GeoValidator::new(&empty_collection);
    let result = validator.validate_route(origin, destination);
    assert_eq!(result.unwrap_err(), ValidationError::OutsideCountry);
}

#[test]
fn polygon_contains_its_interior_only() {
    let square = Polygon { exterior: rect(0, 0, 100, 100), interiors: Vec::new() };
    assert!(square.contains(pt(50, 50)));
    assert!(square.contains(pt(1, 99)));
    assert!(!square.contains(pt(0, 50)));
    assert!(!square.contains(pt(100, 100)));
    assert!(!square.contains(pt(101, 50)));
    assert!(!square.contains(pt(-50, -50)));
}

#[test]
fn polygon_ring_is_closed_when_left_open() {
    let open = Polygon { exterior: vec![pt(0, 0), pt(100, 0), pt(100, 100), pt(0, 100)], interiors: Vec::new() };
    assert!(open.contains(pt(50, 50)));
    assert!(!open.contains(pt(150, 50)));
    // the closing side runs from (0, 100) back to (0, 0)
    assert_eq!(open.dist_sq(pt(-3, 50)), 9);
}

#[test]
fn polygon_hole_is_outside() {
    let ring = Polygon { exterior: rect(0, 0, 100, 100), interiors: vec![rect(40, 40, 60, 60)] };
    assert!(ring.contains(pt(20, 20)));
    assert!(!ring.contains(pt(50, 50)));
    assert_eq!(ring.dist_sq(pt(20, 20)), 0);
    // in the hole, the hole's ring is the nearest
    assert_eq!(ring.dist_sq(pt(50, 45)), 25);
    assert_eq!(ring.dist_sq(pt(107, 50)), 49);
}

#[test]
fn polygon_distance_to_sides_and_corners() {
    let square = Polygon { exterior: rect(0, 0, 100, 100), interiors: Vec::new() };
    assert_eq!(square.dist_sq(pt(50, 50)), 0);
    assert_eq!(square.dist_sq(pt(0, 50)), 0);
    assert_eq!(square.dist_sq(pt(50, -6)), 36);
    assert_eq!(square.dist_sq(pt(103, 104)), 25);
    assert_eq!(square.dist_sq_given(pt(103, 104), true), 0);
    assert_eq!(square.dist_sq_given(pt(50, 50), false), 2_500);
}

#[test]
fn polygon_without_vertices() {
    let none = Polygon { exterior: Vec::new(), interiors: Vec::new() };
    assert!(!none.contains(pt(0, 0)));
    assert_eq!(none.dist_sq(pt(0, 0)), NO_DISTANCE);
    assert_eq!(ring_dist_sq(&Vec::new(), pt(0, 0)), NO_DISTANCE);
    assert_eq!(ring_dist_sq(&vec![pt(3, 4)], pt(0, 0)), 25);
}

#[test]
fn point_inside_one_department() {
    let validator = two_departments();
    assert_eq!(validator.validate_point(pt(-89_700_000, 13_500_000)), Ok(Some("A".to_string())));
    assert_eq!(validator.validate_point(pt(-89_200_000, 13_500_000)), Ok(Some("B".to_string())));
    assert_eq!(validator.find_containing(pt(-89_200_000, 13_500_000)), Some(1));
    assert_eq!(validator.department_count(), 2);
}

#[test]
fn point_in_overlapping_departments_goes_to_the_first() {
    let validator = GeoValidator::new(&collection(vec![
        department("FIRST", vec![rect(0, 0, 100, 100)]),
        department("SECOND", vec![rect(50, 50, 150, 150)]),
    ]));
    assert_eq!(validator.validate_point(pt(75, 75)), Ok(Some("FIRST".to_string())));
    assert_eq!(validator.validate_point(pt(125, 125)), Ok(Some("SECOND".to_string())));
}

#[test]
fn point_far_outside_is_outside_the_country() {
    let validator = two_departments();
    assert_eq!(validator.validate_point(pt(0, 0)), Err(ValidationError::OutsideCountry));
    assert_eq!(
        validator.validate_point(pt(-89_700_000, 14_010_000)),
        Err(ValidationError::OutsideCountry)
    );
    assert_eq!(validator.find_containing(pt(0, 0)), None);
}

#[test]
fn point_near_the_edge_is_unresolved() {
    let validator = two_departments();
    assert_eq!(validator.validate_point(pt(-89_700_000, 14_009_999)), Ok(None));
    // on the shared side of A and B: in neither interior, at no distance
    assert_eq!(validator.validate_point(pt(-89_500_000, 13_500_000)), Ok(None));
    assert_eq!(validator.nearest_boundary_sq(pt(-89_500_000, 13_500_000)), 0);
    assert_eq!(validator.nearest_boundary_sq(pt(-89_700_000, 14_009_999)), 9_999 * 9_999);
}

#[test]
fn classify_by_containing_and_distance() {
    assert_eq!(classify_point(Some("A".to_string()), NO_DISTANCE, 10_000), Ok(Some("A".to_string())));
    assert_eq!(classify_point(None, 99_999_999, 10_000), Ok(None));
    assert_eq!(classify_point(None, 100_000_000, 10_000), Err(ValidationError::OutsideCountry));
    assert_eq!(classify_point(None, NO_DISTANCE, u64::MAX), Err(ValidationError::OutsideCountry));
    assert_eq!(classify_point(None, 0, 0), Err(ValidationError::OutsideCountry));
    assert_eq!(NEAR_BOUNDARY_THRESHOLD, 10_000);
}

#[test]
fn two_departments_are_interdepartmental() {
    let validator = two_departments();
    let across = validator.validate_route(pt(-89_700_000, 13_500_000), pt(-89_200_000, 13_500_000)).unwrap();
    assert!(across.is_valid);
    assert!(across.is_interdepartmental);
    assert_eq!(across.origin_department, Some("A".to_string()));
    assert_eq!(across.destination_department, Some("B".to_string()));
    // the nearest ring is the side that A and B share, 0.2 degrees east of the origin
    assert_eq!(across.distance_to_boundary, 200_000);
    let within = validator.validate_route(pt(-89_700_000, 13_500_000), pt(-89_600_000, 13_600_000)).unwrap();
    assert!(within.is_valid);
    assert!(!within.is_interdepartmental);
}

#[test]
fn route_validation_passes_on_the_error_of_either_end() {
    let validator = two_departments();
    let inside = pt(-89_700_000, 13_500_000);
    let outside = pt(0, 0);
    assert_eq!(validator.validate_route(outside, inside).unwrap_err(), ValidationError::OutsideCountry);
    assert_eq!(validator.validate_route(inside, outside).unwrap_err(), ValidationError::OutsideCountry);
    assert_eq!(validator.validate_route(outside, outside).unwrap_err(), ValidationError::OutsideCountry);
    assert_eq!(validator.validate_point(outside).unwrap_err(), ValidationError::OutsideCountry);
}

#[test]
fn route_validation_with_an_unresolved_end() {
    let validator = two_departments();
    let near_edge = pt(-89_700_000, 14_005_000);
    let result = validator.validate_route(near_edge, pt(-89_200_000, 13_500_000)).unwrap();
    assert!(!result.is_valid);
    assert!(!result.is_interdepartmental);
    assert_eq!(result.origin_department, None);
    assert_eq!(result.destination_department, Some("B".to_string()));
    assert_eq!(result.distance_to_boundary, 5_000);
}

#[test]
fn multi_polygon_departments() {
    let islands = Department {
        name: "ISLAS".to_string(),
        geometry: GeoJsonGeometry::MultiPolygon {
            coordinates: vec![vec![rect(0, 0, 10, 10)], Vec::new(), vec![rect(100, 100, 110, 110), rect(104, 104, 106, 106)]],
        },
    };
    let validator = GeoValidator::new(&collection(vec![islands]));
    assert_eq!(validator.validate_point(pt(5, 5)), Ok(Some("ISLAS".to_string())));
    assert_eq!(validator.validate_point(pt(102, 102)), Ok(Some("ISLAS".to_string())));
    // in the hole of the second island
    assert_eq!(validator.validate_point(pt(105, 105)), Ok(None));
    assert_eq!(validator.nearest_boundary_sq(pt(50, 5)), 1_600);
}

#[test]
fn department_of_another_shape_has_no_area() {
    let line = Department {
        name: "LINEA".to_string(),
        geometry: GeoJsonGeometry::LineString { coordinates: rect(0, 0, 10, 10) },
    };
    let unringed = department("VACIO", Vec::new());
    let validator = GeoValidator::new(&collection(vec![line, unringed]));
    assert_eq!(validator.department_count(), 2);
    assert_eq!(validator.validate_point(pt(5, 5)), Err(ValidationError::OutsideCountry));
    assert_eq!(validator.nearest_boundary_sq(pt(5, 5)), NO_DISTANCE);
    assert!(!validator.is_near_boundary(pt(5, 5), u64::MAX));
    assert_eq!(validator.get_nearest_department(pt(5, 5)), Ok("LINEA".to_string()));
}

#[test]
fn near_boundary_includes_the_distance() {
    let validator = two_departments();
    let p = pt(-89_700_000, 14_003_000);
    assert!(validator.is_near_boundary(p, 3_000));
    assert!(!validator.is_near_boundary(p, 2_999));
    // inside A, 0.2 degrees from its nearest side
    let inside = pt(-89_700_000, 13_500_000);
    assert!(!validator.is_near_boundary(inside, 0));
    assert!(!validator.is_near_boundary(inside, 199_999));
    assert!(validator.is_near_boundary(inside, 200_000));
    assert!(validator.is_near_boundary(pt(-89_500_000, 13_500_000), 0));
}

#[test]
fn nearest_department() {
    let validator = two_departments();
    assert_eq!(validator.get_nearest_department(pt(-91_000_000, 13_500_000)), Ok("A".to_string()));
    assert_eq!(validator.get_nearest_department(pt(-88_000_000, 13_500_000)), Ok("B".to_string()));
    // on the shared side both are at no distance: the first is named
    assert_eq!(validator.get_nearest_department(pt(-89_500_000, 13_500_000)), Ok("A".to_string()));
    let nothing = GeoValidator::new(&collection(Vec::new()));
    assert_eq!(nothing.get_nearest_department(pt(0, 0)), Err(ValidationError::DepartmentNotFound));
}

#[test]
fn departments_of_a_route() {
    let validator = two_departments();
    let line = |pts: Vec<GeoPoint>| Route {
        properties: RouteProperties {
            code: "R".to_string(),
            name: "R".to_string(),
            department: "A".to_string(),
            subtype: RouteSubtype::Interdepartmental,
        },
        geometry: GeoJsonGeometry::LineString { coordinates: pts },
    };
    let both = line(vec![pt(-89_700_000, 13_500_000), pt(-89_200_000, 13_500_000)]);
    assert_eq!(validator.get_route_departments(&both), vec!["A".to_string(), "B".to_string()]);
    let east = line(vec![pt(0, 0), pt(-89_200_000, 13_500_000)]);
    assert_eq!(validator.get_route_departments(&east), vec!["B".to_string()]);
    // the line crosses A, but none of its vertices lies in it
    let over = line(vec![pt(-90_100_000, 13_500_000), pt(-89_200_000, 13_500_000)]);
    assert_eq!(validator.get_route_departments(&over), vec!["B".to_string()]);
    let none = line(Vec::new());
    assert_eq!(validator.get_route_departments(&none), Vec::<String>::new());
    let shapeless = Route {
        properties: both.properties.clone(),
        geometry: GeoJsonGeometry::Point { coordinates: pt(-89_700_000, 13_500_000) },
    };
    assert_eq!(validator.get_route_departments(&shapeless), Vec::<String>::new());
}

#[test]
fn error_messages() {
    assert_eq!(ValidationError::InvalidCoordinates.message(), "Invalid coordinates");
    assert_eq!(ValidationError::OutsideCountry.message(), "Point outside country boundaries");
    assert_eq!(ValidationError::DepartmentNotFound.message(), "Department not found");
    assert_eq!(ValidationError::GeometryError("ring".to_string()).message(), "Geometry error: ring");
    assert_eq!(SearchError::NoRoutesNearOrigin.message(), "No routes found near origin");
    assert_eq!(SearchError::NoRoutesNearDestination.message(), "No routes found near destination");
    assert_eq!(SearchError::NoValidPath.message(), "No valid path found");
    assert_eq!(SearchError::MaxTransfersExceeded.message(), "Max transfers exceeded");
    assert_eq!(SearchError::DistanceError("x".to_string()).message(), "Distance calculation error: x");
    assert_eq!(SearchError::CacheError("gone".to_string()).message(), "Cache error: gone");
    assert_eq!(
        PlanningError::ValidationError(ValidationError::OutsideCountry).message(),
        "Geographic validation error: Point outside country boundaries"
    );
    assert_eq!(
        PlanningError::SearchError(SearchError::NoValidPath).message(),
        "Search error: No valid path found"
    );
    assert_eq!(PlanningError::ConfigError("limit".to_string()).message(), "Configuration error: limit");
    assert_eq!(PlanningError::NoValidRoutes.message(), "No valid routes found");
    assert_eq!(
        PlanningError::from(ValidationError::InvalidCoordinates),
        PlanningError::ValidationError(ValidationError::InvalidCoordinates)
    );
    assert_eq!(
        PlanningError::from(SearchError::NoRoutesNearOrigin),
        PlanningError::SearchError(SearchError::NoRoutesNearOrigin)
    );
}

#[test]
fn loader_starts_empty_and_answers_queries() {
    let mut loader = DataLoader::new("./data");
    assert_eq!(loader.data_dir, "./data");
    assert!(loader.departments().features.is_empty());
    assert!(loader.bus_stops().features.is_empty());
    assert!(loader.routes().features.is_empty());
    assert!(loader.find_interdepartmental_routes().is_empty());
    let fresh: GeoJsonFeatureCollection<Route> = empty_collection();
    assert_eq!(fresh.name, "");
    assert_eq!(fresh.crs.properties.name, "");

    let route = |code: &str, department: &str, subtype: RouteSubtype| Route {
        properties: RouteProperties {
            code: code.to_string(),
            name: code.to_string(),
            department: department.to_string(),
            subtype,
        },
        geometry: GeoJsonGeometry::LineString { coordinates: Vec::new() },
    };
    loader.routes.features = vec![
        route("1", "LA LIBERTAD", RouteSubtype::Urban),
        route("2", "SAN SALVADOR", RouteSubtype::Interdepartmental),
        route("3", "LA LIBERTAD", RouteSubtype::Interdepartmental),
        route("4", "la libertad", RouteSubtype::Interurban),
    ];
    let stop = |code: &str, lon: i64| BusStop { route_code: code.to_string(), location: pt(lon, 0), name: None };
    loader.bus_stops.features = vec![stop("2", 0), stop("1", 1), stop("2", 2)];

    let found: Vec<&str> =
        loader.find_routes_by_department("LA LIBERTAD").iter().map(|r| r.properties.code.as_str()).collect();
    assert_eq!(found, vec!["1", "3"]);
    assert!(loader.find_routes_by_department("USULUTAN").is_empty());
    let stops: Vec<i64> = loader.find_stops_by_route("2").iter().map(|s| s.location.lon()).collect();
    assert_eq!(stops, vec![0, 2]);
    assert!(loader.find_stops_by_route("9").is_empty());
    let between: Vec<&str> = loader.find_interdepartmental_routes().iter().map(|p| p.code.as_str()).collect();
    assert_eq!(between, vec!["2", "3"]);
}

#[test]
fn test_coordinate_validation() {
    assert!(is_valid_coordinates(13_692_900, -89_218_200));
    assert!(!is_valid_coordinates(0, 0));
    assert!(!is_valid_coordinates(15_000_000, -89_000_000));
}

#[test]
fn country_bounds_include_their_edges() {
    assert!(is_valid_coordinates(13_000_000, -90_200_000));
    assert!(is_valid_coordinates(14_500_000, -87_500_000));
    assert!(!is_valid_coordinates(12_999_999, -89_000_000));
    assert!(!is_valid_coordinates(14_500_001, -89_000_000));
    assert!(!is_valid_coordinates(13_500_000, -90_200_001));
    assert!(!is_valid_coordinates(13_500_000, -87_499_999));
    assert!(!is_valid_coordinates(i64::MIN, i64::MAX));
}

#[test]
fn loader_takes_the_routes_of_all_files_in_order() {
    let route = |code: &str| Route {
        properties: RouteProperties {
            code: code.to_string(),
            name: code.to_string(),
            department: "A".to_string(),
            subtype: RouteSubtype::Urban,
        },
        geometry: GeoJsonGeometry::LineString { coordinates: Vec::new() },
    };
    let file = |name: &str, routes: Vec<Route>| {
        let mut c: GeoJsonFeatureCollection<Route> = empty_collection();
        c.name = name.to_string();
        c.features = routes;
        c
    };
    let mut loader = DataLoader::new("./data");
    loader.load_all(
        collection(vec![department("A", vec![rect(0, 0, 10, 10)])]),
        empty_collection(),
        vec![file("first", vec![route("1"), route("2")]), file("none", Vec::new()), file("last", vec![route("3")])],
    );
    let codes: Vec<&str> = loader.routes().features.iter().map(|r| r.properties.code.as_str()).collect();
    assert_eq!(codes, vec!["1", "2", "3"]);
    assert_eq!(loader.routes().name, "");
    assert_eq!(loader.departments().features.len(), 1);
    assert_eq!(loader.departments().name, "LIM DEPARTAMENTALES");
    assert_eq!(loader.data_dir, "./data");
    loader.load_all(empty_collection(), empty_collection(), Vec::new());
    assert!(loader.routes().features.is_empty());
    assert!(loader.departments().features.is_empty());
}

#[test]
fn distance_to_boundary_is_measured_inside_a_department_too() {
    // one department, a square of one degree; the origin at its centre
    let validator = GeoValidator::new(&collection(vec![department("A", vec![rect(0, 0, 1_000_000, 1_000_000)])]));
    let result = validator.validate_route(pt(500_000, 500_000), pt(250_000, 250_000)).unwrap();
    assert!(result.is_valid);
    assert!(!result.is_interdepartmental);
    assert_eq!(result.distance_to_boundary, 500_000);
    assert_eq!(validator.nearest_boundary_sq(pt(500_000, 500_000)), 250_000_000_000);
    // nearer to a side
    let near = validator.validate_route(pt(500_000, 4_000), pt(250_000, 250_000)).unwrap();
    assert_eq!(near.distance_to_boundary, 4_000);
    // on a side, and outside within the threshold
    assert_eq!(validator.nearest_boundary_sq(pt(500_000, 0)), 0);
    assert_eq!(validator.nearest_boundary_sq(pt(500_000, -3)), 9);
}

#[test]
fn distance_to_boundary_counts_the_rings_of_holes() {
    let holed = department("A", vec![rect(0, 0, 1_000, 1_000), rect(400, 400, 600, 600)]);
    let validator = GeoValidator::new(&collection(vec![holed]));
    // inside the area, 50 from the hole and 350 from the outer ring
    let result = validator.validate_route(pt(350, 500), pt(100, 100)).unwrap();
    assert_eq!(result.distance_to_boundary, 50);
    assert_eq!(validator.validate_route(pt(100, 500), pt(100, 100)).unwrap().distance_to_boundary, 100);
}

#[test]
fn nearest_department_is_the_one_that_holds_the_point() {
    // B comes first in the order; the point lies in A, nearest to the side that both share
    let validator = GeoValidator::new(&collection(vec![
        department("B", vec![rect(-89_500_000, 13_000_000, -89_000_000, 14_000_000)]),
        department("A", vec![rect(-90_000_000, 13_000_000, -89_500_000, 14_000_000)]),
    ]));
    assert_eq!(validator.get_nearest_department(pt(-89_510_000, 13_500_000)), Ok("A".to_string()));
    assert_eq!(validator.get_nearest_department(pt(-89_490_000, 13_500_000)), Ok("B".to_string()));
    // on the shared side both are at no distance: the first is named
    assert_eq!(validator.get_nearest_department(pt(-89_500_000, 13_500_000)), Ok("B".to_string()));
}

#[test]
fn subtype_by_its_exact_text() {
    let text = |t: &str| Some(t.to_string());
    assert_eq!(subtype_of(&text("INTERDEPARTAMENTAL")), RouteSubtype::Interdepartmental);
    assert_eq!(subtype_of(&text("INTERURBANO")), RouteSubtype::Interurban);
    assert_eq!(subtype_of(&text("URBANO")), RouteSubtype::Urban);
    assert_eq!(subtype_of(&text("interdepartamental")), RouteSubtype::Urban);
    assert_eq!(subtype_of(&text("INTERDEPARTAMENTAL ")), RouteSubtype::Urban);
    assert_eq!(subtype_of(&text("")), RouteSubtype::Urban);
    assert_eq!(subtype_of(&None), RouteSubtype::Urban);
}

#[test]
fn stop_needs_a_route_and_a_location() {
    let code = Some("44".to_string());
    let name = Some("Metrocentro".to_string());
    assert_eq!(
        stop_from_record(code.clone(), Some(pt(1, 2)), name.clone()),
        Some(BusStop { route_code: "44".to_string(), location: pt(1, 2), name: name.clone() })
    );
    assert_eq!(
        stop_from_record(code.clone(), Some(pt(1, 2)), None),
        Some(BusStop { route_code: "44".to_string(), location: pt(1, 2), name: None })
    );
    assert_eq!(stop_from_record(None, Some(pt(1, 2)), name.clone()), None);
    assert_eq!(stop_from_record(code, None, name), None);
    assert_eq!(stop_from_record(None, None, None), None);
}

#[test]
fn route_needs_a_code() {
    let text = |t: &str| Some(t.to_string());
    let line = || GeoJsonGeometry::LineString { coordinates: vec![pt(0, 0), pt(5, 5)] };
    let full = route_from_record(text("101-B"), text("Ruta 101"), text("LA LIBERTAD"), &text("INTERDEPARTAMENTAL"), line());
    assert_eq!(
        full,
        Some(Route {
            properties: RouteProperties {
                code: "101-B".to_string(),
                name: "Ruta 101".to_string(),
                department: "LA LIBERTAD".to_string(),
                subtype: RouteSubtype::Interdepartmental,
            },
            geometry: line(),
        })
    );
    let bare = route_from_record(text("7"), None, None, &None, line()).unwrap();
    assert_eq!(bare.properties.code, "7");
    assert_eq!(bare.properties.name, "");
    assert_eq!(bare.properties.department, "");
    assert_eq!(bare.properties.subtype, RouteSubtype::Urban);
    assert_eq!(route_from_record(None, text("Ruta 101"), text("LA LIBERTAD"), &text("URBANO"), line()), None);
}

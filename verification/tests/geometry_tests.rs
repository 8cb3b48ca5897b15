use route_planner::geometry::{
    bounding_box, box_meets, boxes_overlap, closest_vertex, dist_sq, distance, isqrt, polyline_dist_sq,
    polyline_distance, segment_dist_sq, strictly_within, vertex_within, within, GeoPoint,
    LAT_LIMIT, LON_LIMIT, MAX_DIST, MAX_DIST_SQ,
};

fn pt(lon: i64, lat: i64) -> GeoPoint {
    GeoPoint::new(lon, lat).unwrap()
}

#[test]
fn point_keeps_its_coordinates() {
    let p = pt(-89_218_200, 13_692_900);
    assert_eq!(p.lon(), -89_218_200);
    assert_eq!(p.lat(), 13_692_900);
}

#[test]
fn point_at_the_limits_is_accepted() {
    assert!(GeoPoint::new(LON_LIMIT, LAT_LIMIT).is_some());
    assert!(GeoPoint::new(-LON_LIMIT, -LAT_LIMIT).is_some());
}

#[test]
fn point_off_the_globe_is_refused() {
    assert!(GeoPoint::new(LON_LIMIT + 1, 0).is_none());
    assert!(GeoPoint::new(-LON_LIMIT - 1, 0).is_none());
    assert!(GeoPoint::new(0, LAT_LIMIT + 1).is_none());
    assert!(GeoPoint::new(0, -LAT_LIMIT - 1).is_none());
    assert!(GeoPoint::new(i64::MAX, i64::MIN).is_none());
}

#[test]
fn isqrt_rounds_down() {
    assert_eq!(isqrt(0), 0);
    assert_eq!(isqrt(1), 1);
    assert_eq!(isqrt(3), 1);
    assert_eq!(isqrt(4), 2);
    assert_eq!(isqrt(24), 4);
    assert_eq!(isqrt(25), 5);
    assert_eq!(isqrt(26), 5);
    assert_eq!(isqrt(u64::MAX), 4_294_967_295);
    assert_eq!(isqrt(MAX_DIST_SQ), MAX_DIST);
}

#[test]
fn squared_distance_is_exact() {
    assert_eq!(dist_sq(pt(0, 0), pt(3, 4)), 25);
    assert_eq!(dist_sq(pt(3, 4), pt(0, 0)), 25);
    assert_eq!(dist_sq(pt(-5, 7), pt(-5, 7)), 0);
    assert_eq!(
        dist_sq(pt(-LON_LIMIT, -LAT_LIMIT), pt(LON_LIMIT, LAT_LIMIT)),
        MAX_DIST_SQ
    );
}

#[test]
fn distance_rounds_down() {
    assert_eq!(distance(pt(0, 0), pt(3, 4)), 5);
    assert_eq!(distance(pt(0, 0), pt(1, 1)), 1);
    assert_eq!(distance(pt(-89_220_000, 13_690_000), pt(-89_200_000, 13_700_000)), 22_360);
    assert_eq!(distance(pt(-LON_LIMIT, -LAT_LIMIT), pt(LON_LIMIT, LAT_LIMIT)), MAX_DIST);
}

#[test]
fn segment_distance_before_the_start() {
    assert_eq!(segment_dist_sq(pt(-3, 4), pt(0, 0), pt(10, 0)), 25);
}

#[test]
fn segment_distance_past_the_end() {
    assert_eq!(segment_dist_sq(pt(13, 4), pt(0, 0), pt(10, 0)), 25);
}

#[test]
fn segment_distance_to_the_foot() {
    assert_eq!(segment_dist_sq(pt(5, 7), pt(0, 0), pt(10, 0)), 49);
    // the foot of (0, 1) on the diagonal is half a unit squared away
    assert_eq!(segment_dist_sq(pt(0, 1), pt(0, 0), pt(2, 2)), 0);
    assert_eq!(segment_dist_sq(pt(0, 4), pt(0, 0), pt(4, 4)), 8);
}

#[test]
fn segment_distance_of_a_degenerate_segment() {
    assert_eq!(segment_dist_sq(pt(3, 4), pt(0, 0), pt(0, 0)), 25);
}

#[test]
fn segment_distance_on_the_segment_is_zero() {
    assert_eq!(segment_dist_sq(pt(5, 0), pt(0, 0), pt(10, 0)), 0);
    assert_eq!(segment_dist_sq(pt(0, 0), pt(0, 0), pt(10, 0)), 0);
    assert_eq!(segment_dist_sq(pt(10, 0), pt(0, 0), pt(10, 0)), 0);
}

#[test]
fn polyline_distance_takes_the_nearest_segment() {
    let line = vec![pt(0, 0), pt(10, 0), pt(10, 10)];
    assert_eq!(polyline_dist_sq(&line, pt(5, 3)), 9);
    assert_eq!(polyline_dist_sq(&line, pt(12, 5)), 4);
    assert_eq!(polyline_dist_sq(&line, pt(10, 0)), 0);
    assert_eq!(polyline_distance(&line, pt(5, 3)), 3);
}

#[test]
fn polyline_distance_of_short_lines() {
    let none: Vec<GeoPoint> = Vec::new();
    assert_eq!(polyline_dist_sq(&none, pt(5, 3)), 0);
    assert_eq!(polyline_distance(&none, pt(5, 3)), 0);
    let one = vec![pt(2, -1)];
    assert_eq!(polyline_dist_sq(&one, pt(5, 3)), 25);
    assert_eq!(polyline_distance(&one, pt(5, 3)), 5);
}

#[test]
fn closest_vertex_is_the_first_of_the_nearest() {
    let line = vec![pt(0, 0), pt(4, 0), pt(-4, 0), pt(9, 9)];
    assert_eq!(closest_vertex(&line, pt(4, 3)), Some((1, 9)));
    // (4, 0) and (-4, 0) are equally near to (0, 3): the first is taken
    assert_eq!(closest_vertex(&line, pt(0, 4)), Some((0, 16)));
    assert_eq!(closest_vertex(&vec![pt(4, 0), pt(-4, 0)], pt(0, 3)), Some((0, 25)));
    assert_eq!(closest_vertex(&Vec::new(), pt(0, 3)), None);
}

#[test]
fn within_includes_the_radius() {
    assert!(within(25, 5));
    assert!(!within(26, 5));
    assert!(within(0, 0));
    assert!(within(u64::MAX, u64::MAX));
    assert!(!strictly_within(25, 5));
    assert!(strictly_within(24, 5));
    assert!(!strictly_within(0, 0));
}

#[test]
fn vertex_within_looks_at_vertices_only() {
    let line = vec![pt(0, 0), pt(100, 0)];
    assert!(vertex_within(&line, pt(3, 4), 5));
    assert!(!vertex_within(&line, pt(3, 4), 4));
    // the middle of the segment is near, but no vertex is
    assert!(!vertex_within(&line, pt(50, 1), 10));
    assert!(!vertex_within(&Vec::new(), pt(0, 0), 1_000));
}

#[test]
fn bounding_box_spans_the_vertices() {
    let line = vec![pt(3, -2), pt(-7, 5), pt(1, 9)];
    let b = bounding_box(&line).unwrap();
    assert_eq!((b.min_lon, b.min_lat, b.max_lon, b.max_lat), (-7, -2, 3, 9));
    assert!(bounding_box(&Vec::new()).is_none());
    let single = bounding_box(&vec![pt(4, 4)]).unwrap();
    assert_eq!((single.min_lon, single.min_lat, single.max_lon, single.max_lat), (4, 4, 4, 4));
}

#[test]
fn boxes_overlap_when_both_are_widened() {
    let a = bounding_box(&vec![pt(0, 0), pt(10, 10)]).unwrap();
    let touching = bounding_box(&vec![pt(10, 10), pt(20, 20)]).unwrap();
    let apart = bounding_box(&vec![pt(12, 0), pt(20, 10)]).unwrap();
    assert!(boxes_overlap(&a, &touching, 0));
    assert!(boxes_overlap(&touching, &a, 0));
    assert!(!boxes_overlap(&a, &apart, 0));
    // each box grows by the margin: a gap of two closes at a margin of one
    assert!(boxes_overlap(&a, &apart, 1));
    assert!(boxes_overlap(&apart, &a, 1));
    let above = bounding_box(&vec![pt(0, 13), pt(10, 20)]).unwrap();
    assert!(!boxes_overlap(&a, &above, 1));
    assert!(boxes_overlap(&a, &above, 2));
    assert!(boxes_overlap(&a, &above, u64::MAX));
}

#[test]
fn box_meets_a_line_that_crosses_it() {
    let b = bounding_box(&vec![pt(0, 0), pt(100, 0)]).unwrap();
    // no vertex of the crossing line is near the box, but its own box cuts through
    assert!(box_meets(&b, 0, &vec![pt(50, -1_000), pt(50, 1_000)]));
    assert!(box_meets(&b, 0, &vec![pt(100, 0)]));
    assert!(!box_meets(&b, 0, &vec![pt(101, 0)]));
    assert!(!box_meets(&b, 0, &vec![pt(101, -50), pt(300, 50)]));
    assert!(box_meets(&b, 1, &vec![pt(102, -50), pt(300, 50)]));
    assert!(!box_meets(&b, 1, &vec![pt(103, -50), pt(300, 50)]));
    assert!(!box_meets(&b, u64::MAX, &Vec::new()));
}

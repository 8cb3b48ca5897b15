use route_planner::cache::{CacheEntry, RouteIntersectionCache};
use route_planner::wire::{read_point, read_string, read_u64, write_point, write_string, write_u64};
use route_planner::geometry::{GeoPoint, LAT_LIMIT, LON_LIMIT};
use route_planner::model::{BusStop, TransferPoint, TransferType};

fn pt(lon: i64, lat: i64) -> GeoPoint {
    GeoPoint::new(lon, lat).unwrap()
}

fn transfer(tier: TransferType, stop: Option<BusStop>, to: Option<&str>) -> TransferPoint {
    TransferPoint {
        location: pt(-89_200_000, 13_700_000),
        bus_stop: stop,
        distance_to_route: 4_999,
        transfer_type: tier,
        from_route: "R-1".to_string(),
        to_route: to.map(|s| s.to_string()),
    }
}

fn sample() -> RouteIntersectionCache {
    let named = BusStop {
        route_code: "R-1".to_string(),
        location: pt(-LON_LIMIT, LAT_LIMIT),
        name: Some("Terminal de Oriente, andén 3 — ñ".to_string()),
    };
    let unnamed = BusStop { route_code: String::new(), location: pt(LON_LIMIT, -LAT_LIMIT), name: None };
    RouteIntersectionCache::new(
        vec![
            CacheEntry {
                route_code: "R-1".to_string(),
                transfers: vec![
                    transfer(TransferType::Direct, Some(named), Some("R-2")),
                    transfer(TransferType::Near, Some(unnamed), Some("")),
                    transfer(TransferType::Proximate, None, None),
                ],
            },
            CacheEntry { route_code: "vacía".to_string(), transfers: Vec::new() },
        ],
        -1,
    )
}

fn same(a: &RouteIntersectionCache, b: &RouteIntersectionCache) -> bool {
    a.version == b.version
        && a.last_updated == b.last_updated
        && a.intersections.len() == b.intersections.len()
        && a.intersections
            .iter()
            .zip(b.intersections.iter())
            .all(|(x, y)| x.route_code == y.route_code && x.transfers == y.transfers)
}

#[test]
fn cache_is_read_back_as_written() {
    let cache = sample();
    let bytes = cache.to_bytes();
    let back = RouteIntersectionCache::from_bytes(&bytes).unwrap();
    assert!(same(&cache, &back));
    assert_eq!(back.intersections[0].transfers[0].bus_stop.as_ref().unwrap().name.as_deref(), Some("Terminal de Oriente, andén 3 — ñ"));
    assert_eq!(back.intersections[0].transfers[1].to_route, Some(String::new()));
    assert_eq!(back.intersections[0].transfers[2].to_route, None);
    assert_eq!(back.to_bytes(), bytes);
}

#[test]
fn empty_cache_is_read_back() {
    for now in [0, i64::MAX, i64::MIN, 1_761_609_600] {
        let cache = RouteIntersectionCache::new(Vec::new(), now);
        let bytes = cache.to_bytes();
        assert_eq!(bytes.len(), 24);
        let back = RouteIntersectionCache::from_bytes(&bytes).unwrap();
        assert_eq!(back.version, 1);
        assert_eq!(back.last_updated, now);
        assert!(back.intersections.is_empty());
    }
}

#[test]
fn cache_layout() {
    let cache = RouteIntersectionCache::new(
        vec![CacheEntry { route_code: "A".to_string(), transfers: Vec::new() }],
        0,
    );
    let mut expected: Vec<u8> = Vec::new();
    expected.extend_from_slice(&1u64.to_le_bytes());
    expected.extend_from_slice(&(1u64 << 63).to_le_bytes());
    expected.extend_from_slice(&1u64.to_le_bytes());
    expected.extend_from_slice(&1u64.to_le_bytes());
    expected.push(b'A');
    expected.extend_from_slice(&0u64.to_le_bytes());
    assert_eq!(cache.to_bytes(), expected);
}

#[test]
fn truncated_cache_is_refused() {
    let bytes = sample().to_bytes();
    for cut in 0..bytes.len() {
        assert!(RouteIntersectionCache::from_bytes(&bytes[..cut].to_vec()).is_none());
    }
}

#[test]
fn cache_with_bytes_behind_it_is_refused() {
    let mut bytes = sample().to_bytes();
    bytes.push(0);
    assert!(RouteIntersectionCache::from_bytes(&bytes).is_none());
}

#[test]
fn cache_with_a_wrong_part_is_refused() {
    let cache = RouteIntersectionCache::new(
        vec![CacheEntry {
            route_code: "A".to_string(),
            transfers: vec![transfer(TransferType::Near, None, Some("B"))],
        }],
        7,
    );
    let good = cache.to_bytes();
    assert!(RouteIntersectionCache::from_bytes(&good).is_some());
    // a version that is no 32-bit number
    let mut bad = good.clone();
    bad[4] = 1;
    assert!(RouteIntersectionCache::from_bytes(&bad).is_none());
    // more entries announced than stored
    let mut bad = good.clone();
    bad[16] = 2;
    assert!(RouteIntersectionCache::from_bytes(&bad).is_none());
    // a route code that is not UTF-8
    let mut bad = good.clone();
    bad[32] = 0xff;
    assert!(RouteIntersectionCache::from_bytes(&bad).is_none());
    // a longitude off the globe: the highest byte of the first coordinate
    let mut bad = good.clone();
    bad[41 + 7] = 1;
    assert!(RouteIntersectionCache::from_bytes(&bad).is_none());
    // a mark for the stop that is neither 0 nor 1
    let mut bad = good.clone();
    bad[41 + 16] = 2;
    assert!(RouteIntersectionCache::from_bytes(&bad).is_none());
    // a tier that does not exist
    let mut bad = good.clone();
    bad[41 + 16 + 1 + 8] = 3;
    assert!(RouteIntersectionCache::from_bytes(&bad).is_none());
    assert!(RouteIntersectionCache::from_bytes(&Vec::new()).is_none());
}

#[test]
fn numbers_strings_and_points_are_read_where_written() {
    let mut out: Vec<u8> = vec![9, 9];
    write_u64(&mut out, 0x0102_0304_0506_0708);
    write_string(&mut out, &"año".to_string());
    write_point(&mut out, pt(-1, 2));
    assert_eq!(&out[2..10], &[8, 7, 6, 5, 4, 3, 2, 1]);
    assert_eq!(read_u64(&out, 2), Some((0x0102_0304_0506_0708, 10)));
    assert_eq!(read_string(&out, 10), Some(("año".to_string(), 22)));
    assert_eq!(read_point(&out, 22), Some((pt(-1, 2), 38)));
    assert_eq!(read_u64(&out, 31), None);
    assert_eq!(read_u64(&out, 38), None);
    assert_eq!(read_string(&out, 2), None);
}

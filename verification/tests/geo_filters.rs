//! Coordinate sanitation and the query-to-filter compiler.

use timeseries_search::filters::{filter_timeseries, FilterError, Predicate};
use timeseries_search::geo::{normalize_lat, normalize_lon, validlonlat};
use timeseries_search::params::QueryParams;

fn micro(d: i64) -> i64 {
    d * 1_000_000
}

#[test]
fn longitude_wraps_into_range() {
    assert_eq!(normalize_lon(micro(190)), micro(-170));
    assert_eq!(normalize_lon(micro(-190)), micro(170));
    assert_eq!(normalize_lon(micro(360)), 0);
    assert_eq!(normalize_lon(micro(540)), micro(180));
    assert_eq!(normalize_lon(micro(-180)), micro(-180));
    assert_eq!(normalize_lon(micro(170)), micro(170));
}

#[test]
fn latitude_reduces_and_clamps() {
    assert_eq!(normalize_lat(micro(100)), micro(90));
    assert_eq!(normalize_lat(micro(-100)), micro(-90));
    assert_eq!(normalize_lat(micro(185)), micro(5));
    assert_eq!(normalize_lat(micro(45)), micro(45));
}

#[test]
fn normalization_is_idempotent_on_samples() {
    let samples: Vec<i64> = vec![
        micro(190),
        micro(-190),
        micro(360),
        micro(540),
        micro(-180),
        micro(180),
        micro(123),
        7,
        -7,
    ];
    for &x in &samples {
        let once = normalize_lon(x);
        assert_eq!(normalize_lon(once), once);
        assert!(-micro(180) <= once && once <= micro(180));
        let lat_once = normalize_lat(x);
        assert_eq!(normalize_lat(lat_once), lat_once);
        assert!(-micro(90) <= lat_once && lat_once <= micro(90));
    }
}

#[test]
fn validlonlat_normalizes_pairs_and_passes_others() {
    let coords = vec![vec![micro(190), micro(100)], vec![micro(1), micro(2), micro(3)]];
    let r = validlonlat(coords);
    assert_eq!(r[0], vec![micro(-170), micro(90)]);
    assert_eq!(r[1], vec![micro(1), micro(2), micro(3)]);
}

#[test]
fn id_only_compiles_to_single_equality() {
    let mut p = QueryParams::empty();
    p.id = Some("X123".to_string());
    let f = filter_timeseries(&p).unwrap();
    assert_eq!(f.clauses.len(), 1);
    match &f.clauses[0] {
        Predicate::IdEquals(s) => assert_eq!(s, "X123"),
        _ => panic!("expected an identifier equality predicate"),
    }
}

#[test]
fn dateline_crossing_box_splits_in_two() {
    let mut p = QueryParams::empty();
    p.box_region = Some("[[170,-10],[-170,10]]".to_string());
    let f = filter_timeseries(&p).unwrap();
    assert_eq!(f.clauses.len(), 1);
    match &f.clauses[0] {
        Predicate::GeoWithinBoxes(boxes) => {
            assert_eq!(boxes.len(), 2);
            assert_eq!(boxes[0].corner0.lon, micro(170));
            assert_eq!(boxes[0].corner0.lat, micro(-10));
            assert_eq!(boxes[0].corner1.lon, micro(180));
            assert_eq!(boxes[0].corner1.lat, micro(10));
            assert_eq!(boxes[1].corner0.lon, micro(-180));
            assert_eq!(boxes[1].corner0.lat, micro(-10));
            assert_eq!(boxes[1].corner1.lon, micro(-170));
            assert_eq!(boxes[1].corner1.lat, micro(10));
        },
        _ => panic!("expected a box predicate"),
    }
}

#[test]
fn ordinary_box_stays_whole() {
    let mut p = QueryParams::empty();
    p.box_region = Some("[[-10,-10],[10,10]]".to_string());
    let f = filter_timeseries(&p).unwrap();
    match &f.clauses[0] {
        Predicate::GeoWithinBoxes(boxes) => {
            assert_eq!(boxes.len(), 1);
            assert_eq!(boxes[0].corner0.lon, micro(-10));
            assert_eq!(boxes[0].corner1.lon, micro(10));
        },
        _ => panic!("expected a box predicate"),
    }
}

#[test]
fn polygon_ring_is_normalized() {
    let mut p = QueryParams::empty();
    p.polygon = Some("[[190,0],[0,0],[0,10],[190,0]]".to_string());
    let f = filter_timeseries(&p).unwrap();
    match &f.clauses[0] {
        Predicate::GeoWithinPolygon(ring) => {
            assert_eq!(ring.len(), 4);
            assert_eq!(ring[0], vec![micro(-170), 0]);
            assert_eq!(ring[2], vec![0, micro(10)]);
        },
        _ => panic!("expected a polygon predicate"),
    }
}

#[test]
fn center_and_radius_compile_to_proximity() {
    let mut p = QueryParams::empty();
    p.center = Some("[190,0]".to_string());
    p.radius = Some("50".to_string());
    let f = filter_timeseries(&p).unwrap();
    assert_eq!(f.clauses.len(), 1);
    match &f.clauses[0] {
        Predicate::NearPoint(point, radius) => {
            assert_eq!(point, &vec![micro(-170), 0]);
            assert_eq!(*radius, micro(50));
        },
        _ => panic!("expected a proximity predicate"),
    }
}

#[test]
fn vertical_range_compiles_to_level_bounds() {
    let mut p = QueryParams::empty();
    p.vertical_range = Some("[0,100.5]".to_string());
    let f = filter_timeseries(&p).unwrap();
    match &f.clauses[0] {
        Predicate::LevelRange(lo, hi) => {
            assert_eq!(*lo, 0);
            assert_eq!(*hi, 100_500_000);
        },
        _ => panic!("expected a level range predicate"),
    }
}

#[test]
fn clauses_combine_in_fixed_order() {
    let mut p = QueryParams::empty();
    p.id = Some("A1".to_string());
    p.box_region = Some("[[-10,-10],[10,10]]".to_string());
    p.vertical_range = Some("[0,50]".to_string());
    let f = filter_timeseries(&p).unwrap();
    assert_eq!(f.clauses.len(), 3);
    assert!(matches!(f.clauses[0], Predicate::IdEquals(_)));
    assert!(matches!(f.clauses[1], Predicate::GeoWithinBoxes(_)));
    assert!(matches!(f.clauses[2], Predicate::LevelRange(_, _)));
}

#[test]
fn malformed_values_name_their_parameter() {
    let mut p = QueryParams::empty();
    p.box_region = Some("[[170,-10]]".to_string());
    assert!(matches!(filter_timeseries(&p), Err(FilterError::MalformedBox)));

    let mut p = QueryParams::empty();
    p.radius = Some("fast".to_string());
    p.center = Some("[0,0]".to_string());
    assert!(matches!(filter_timeseries(&p), Err(FilterError::MalformedRadius)));

    let mut p = QueryParams::empty();
    p.polygon = Some("not json".to_string());
    assert!(matches!(filter_timeseries(&p), Err(FilterError::MalformedPolygon)));

    let mut p = QueryParams::empty();
    p.vertical_range = Some("[5]".to_string());
    assert!(matches!(filter_timeseries(&p), Err(FilterError::MalformedVerticalRange)));
}

#[test]
fn unparseable_center_reports_malformed_center() {
    let mut p = QueryParams::empty();
    p.center = Some("nowhere".to_string());
    p.radius = Some("5".to_string());
    assert!(matches!(filter_timeseries(&p), Err(FilterError::MalformedCenter)));
}

#[test]
fn validlonlat_is_idempotent() {
    let coords = vec![
        vec![micro(190), micro(100)],
        vec![micro(-540), micro(-95)],
        vec![micro(7)],
    ];
    let once = validlonlat(coords);
    let twice = validlonlat(once.clone());
    assert_eq!(twice, once);
}

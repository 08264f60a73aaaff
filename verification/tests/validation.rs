//! Request validation: the parameter rules and their reason texts.

use timeseries_search::params::QueryParams;
use timeseries_search::validate::{
    validate_query_params, DateField, PolygonIssue, ValidationError,
};

#[test]
fn empty_request_is_valid() {
    let p = QueryParams::empty();
    assert!(validate_query_params(&p).is_ok());
}

#[test]
fn polygon_and_box_are_mutually_exclusive() {
    let mut p = QueryParams::empty();
    p.polygon = Some("[[0,0],[1,0],[1,1],[0,0]]".to_string());
    p.box_region = Some("[[0,0],[1,1]]".to_string());
    assert!(matches!(
        validate_query_params(&p),
        Err(ValidationError::MutuallyExclusiveGeoFilters)
    ));
}

#[test]
fn center_without_radius_is_incomplete() {
    let mut p = QueryParams::empty();
    p.center = Some("[0,0]".to_string());
    assert!(matches!(
        validate_query_params(&p),
        Err(ValidationError::IncompleteCenterRadius)
    ));
    let mut p = QueryParams::empty();
    p.radius = Some("10".to_string());
    assert!(matches!(
        validate_query_params(&p),
        Err(ValidationError::IncompleteCenterRadius)
    ));
}

#[test]
fn center_with_radius_is_valid() {
    let mut p = QueryParams::empty();
    p.center = Some("[0,0]".to_string());
    p.radius = Some("10".to_string());
    assert!(validate_query_params(&p).is_ok());
}

#[test]
fn unclosed_three_point_polygon_is_rejected() {
    let mut p = QueryParams::empty();
    p.polygon = Some("[[0,0],[1,0],[1,1]]".to_string());
    assert!(matches!(
        validate_query_params(&p),
        Err(ValidationError::MalformedPolygon(_))
    ));
}

#[test]
fn four_point_open_ring_is_rejected_as_unclosed() {
    let mut p = QueryParams::empty();
    p.polygon = Some("[[0,0],[1,0],[1,1],[0,1]]".to_string());
    assert!(matches!(
        validate_query_params(&p),
        Err(ValidationError::MalformedPolygon(PolygonIssue::NotClosed))
    ));
}

#[test]
fn polygon_point_must_be_a_pair() {
    let mut p = QueryParams::empty();
    p.polygon = Some("[[0,0],[1,0,5],[1,1],[0,0]]".to_string());
    assert!(matches!(
        validate_query_params(&p),
        Err(ValidationError::MalformedPolygon(PolygonIssue::PointNotPair))
    ));
}

#[test]
fn closed_ring_is_accepted() {
    let mut p = QueryParams::empty();
    p.polygon = Some("[[0,0],[1,0],[1,1],[0,0]]".to_string());
    assert!(validate_query_params(&p).is_ok());
}

#[test]
fn unparseable_polygon_text_is_rejected() {
    let mut p = QueryParams::empty();
    p.polygon = Some("droplet".to_string());
    assert!(matches!(
        validate_query_params(&p),
        Err(ValidationError::MalformedPolygon(PolygonIssue::NotPairsArray))
    ));
}

#[test]
fn bad_dates_are_rejected_with_their_field() {
    let mut p = QueryParams::empty();
    p.start_date = Some("yesterday".to_string());
    assert!(matches!(
        validate_query_params(&p),
        Err(ValidationError::MalformedDate(DateField::Start))
    ));
    let mut p = QueryParams::empty();
    p.end_date = Some("2020-13-01T00:00:00Z".to_string());
    assert!(matches!(
        validate_query_params(&p),
        Err(ValidationError::MalformedDate(DateField::End))
    ));
}

#[test]
fn good_dates_are_accepted() {
    let mut p = QueryParams::empty();
    p.start_date = Some("2020-01-01T00:00:00Z".to_string());
    p.end_date = Some("2020-02-01T00:00:00Z".to_string());
    assert!(validate_query_params(&p).is_ok());
}

#[test]
fn messages_name_the_violated_rule() {
    assert_eq!(
        ValidationError::MutuallyExclusiveGeoFilters.message(),
        "At most one of 'polygon', 'box', or 'center' should be defined"
    );
    assert_eq!(
        ValidationError::IncompleteCenterRadius.message(),
        "'center' and 'radius' should both be defined, or neither should be defined"
    );
    assert_eq!(
        ValidationError::MalformedPolygon(PolygonIssue::TooFewPoints).message(),
        "'polygon' should have at least 4 points"
    );
    assert_eq!(
        ValidationError::MalformedDate(DateField::Start).message(),
        "'startDate' should have the format YYYY-MM-DDTHH:MM:SSZ"
    );
}

#[test]
fn three_point_polygon_is_too_few_points() {
    let mut p = QueryParams::empty();
    p.polygon = Some("[[0,0],[1,0],[0,0]]".to_string());
    assert!(matches!(
        validate_query_params(&p),
        Err(ValidationError::MalformedPolygon(PolygonIssue::TooFewPoints))
    ));
}

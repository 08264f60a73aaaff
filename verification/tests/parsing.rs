//! The coordinate-value grammar: decimal numbers and bracketed lists,
//! read into micro-units.

use timeseries_search::parse::{parse_number_array, parse_pair_array, parse_scalar};
use timeseries_search::transforms::split_commas;

#[test]
fn scalar_whole_number() {
    assert_eq!(parse_scalar("50"), Some(50_000_000));
}

#[test]
fn scalar_negative_fraction() {
    assert_eq!(parse_scalar("-170.5"), Some(-170_500_000));
}

#[test]
fn scalar_fraction_truncated_after_six_digits() {
    assert_eq!(parse_scalar("0.1234567"), Some(123_456));
}

#[test]
fn scalar_short_fraction_padded() {
    assert_eq!(parse_scalar("1.5"), Some(1_500_000));
}

#[test]
fn scalar_rejects_bare_dot_and_sign() {
    assert_eq!(parse_scalar("."), None);
    assert_eq!(parse_scalar("-"), None);
    assert_eq!(parse_scalar("1."), None);
    assert_eq!(parse_scalar(""), None);
    assert_eq!(parse_scalar("+5"), None);
}

#[test]
fn scalar_rejects_oversized_whole_part() {
    assert_eq!(parse_scalar("1000000000001"), None);
    assert_eq!(parse_scalar("1000000000000"), Some(1_000_000_000_000_000_000));
}

#[test]
fn number_array_roundtrip() {
    assert_eq!(
        parse_number_array("[1,-2.25,3]"),
        Some(vec![1_000_000, -2_250_000, 3_000_000])
    );
}

#[test]
fn number_array_empty() {
    assert_eq!(parse_number_array("[]"), Some(vec![]));
}

#[test]
fn number_array_rejects_trailing_comma_and_junk() {
    assert_eq!(parse_number_array("[1,]"), None);
    assert_eq!(parse_number_array("[1 ,2]"), None);
    assert_eq!(parse_number_array("[1,2]x"), None);
    assert_eq!(parse_number_array("1,2"), None);
}

#[test]
fn pair_array_basic() {
    assert_eq!(
        parse_pair_array("[[170,-10],[-170,10]]"),
        Some(vec![
            vec![170_000_000, -10_000_000],
            vec![-170_000_000, 10_000_000]
        ])
    );
}

#[test]
fn pair_array_allows_inner_lists_of_any_length() {
    assert_eq!(
        parse_pair_array("[[1],[2,3,4],[]]"),
        Some(vec![vec![1_000_000], vec![2_000_000, 3_000_000, 4_000_000], vec![]])
    );
}

#[test]
fn pair_array_rejects_unclosed() {
    assert_eq!(parse_pair_array("[[1,2],[3,4]"), None);
    assert_eq!(parse_pair_array("[[1,2],"), None);
}

#[test]
fn split_commas_segments() {
    let parts = split_commas("temperature,salinity");
    assert_eq!(parts, vec!["temperature".to_string(), "salinity".to_string()]);
}

#[test]
fn split_commas_empty_text_is_one_empty_segment() {
    assert_eq!(split_commas(""), vec![String::new()]);
    assert_eq!(split_commas("a,,b"), vec!["a".to_string(), String::new(), "b".to_string()]);
}

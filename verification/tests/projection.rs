//! The result projection pipeline and the response-shape policy, run
//! end to end on concrete records.

use timeseries_search::params::QueryParams;
use timeseries_search::response::{
    response_mode, response_status, unique_metadata_ids, ResponseMode, ResponseStatus,
};
use timeseries_search::schema::{BsoseSchema, DataInfo, GeoJSONPoint};
use timeseries_search::time::{bsondate2string, string2bsondate};
use timeseries_search::transforms::{
    project, resolve_channels, resolve_window, slice_data, slice_timerange, timeseries_stub,
    transform_timeseries,
};

const JAN: i64 = 1_577_836_800_000;
const FEB: i64 = 1_580_515_200_000;
const MAR: i64 = 1_583_020_800_000;

fn monthly_index() -> Vec<i64> {
    vec![JAN, FEB, MAR]
}

fn baseline_info() -> DataInfo {
    (
        vec![
            "temperature".to_string(),
            "salinity".to_string(),
            "pressure".to_string(),
        ],
        vec!["C".to_string(), "psu".to_string(), "dbar".to_string()],
        vec![
            vec!["t".to_string()],
            vec!["s".to_string()],
            vec!["p".to_string()],
        ],
    )
}

fn rec(id: &str, data: Vec<Vec<f64>>, metadata: Vec<String>) -> BsoseSchema<f64> {
    BsoseSchema {
        _id: id.to_string(),
        metadata,
        basin: 1.0,
        geolocation: GeoJSONPoint {
            location_type: "Point".to_string(),
            coordinates: [10.0, -5.0],
        },
        level: 100.0,
        cell_vertical_fraction: 0.5,
        sea_binary_mask_at_t_locaiton: true,
        ctrl_vector_3d_mask: false,
        cell_z_size: 1.0,
        reference_density_profile: 2.0,
        data,
        timeseries: None,
        data_info: None,
    }
}

fn full_record(id: &str) -> BsoseSchema<f64> {
    rec(
        id,
        vec![
            vec![1.0, 2.0, 3.0],
            vec![4.0, 5.0, 6.0],
            vec![7.0, 8.0, 9.0],
        ],
        vec!["meta1".to_string()],
    )
}

#[test]
fn dates_parse_to_epoch_millis() {
    assert_eq!(string2bsondate("2020-01-01T00:00:00Z"), Some(JAN));
    assert_eq!(string2bsondate("2020-02-01T00:00:00Z"), Some(FEB));
    assert_eq!(string2bsondate("not a date"), None);
}

#[test]
fn epoch_millis_render_as_labels() {
    assert_eq!(bsondate2string(JAN), "2020-01-01T00:00:00Z");
    assert_eq!(bsondate2string(0), "1970-01-01T00:00:00Z");
}

#[test]
fn window_defaults_to_whole_index() {
    let ts = monthly_index();
    assert_eq!(resolve_window(&ts, None, None), (0, 3));
}

#[test]
fn window_is_tightest_for_both_bounds() {
    let ts = monthly_index();
    assert_eq!(resolve_window(&ts, Some(JAN), Some(FEB)), (0, 1));
    assert_eq!(resolve_window(&ts, Some(JAN + 1), Some(MAR)), (1, 2));
    assert_eq!(resolve_window(&ts, Some(FEB), None), (1, 3));
    assert_eq!(resolve_window(&ts, None, Some(MAR)), (0, 2));
}

#[test]
fn window_quirks_fall_back_to_full_bounds() {
    let ts = monthly_index();
    assert_eq!(resolve_window(&ts, Some(MAR + 1), None), (0, 3));
    assert_eq!(resolve_window(&ts, None, Some(JAN)), (0, 3));
}

#[test]
fn slicing_truncates_columns_and_sets_labels() {
    let ts = monthly_index();
    let out = slice_timerange(Some(JAN), Some(FEB), &ts, vec![full_record("r1")]);
    assert_eq!(out.len(), 1);
    assert_eq!(out[0].data, vec![vec![1.0], vec![4.0], vec![7.0]]);
    assert_eq!(
        out[0].timeseries,
        Some(vec!["2020-01-01T00:00:00Z".to_string()])
    );
}

#[test]
fn channel_resolution_keeps_request_order_and_drops_unknown() {
    let info = baseline_info();
    let req = vec![
        "salinity".to_string(),
        "oxygen".to_string(),
        "temperature".to_string(),
    ];
    assert_eq!(resolve_channels(&info.0, &req), vec![1, 0]);
}

#[test]
fn absent_data_clears_every_matrix() {
    let info = baseline_info();
    let out = slice_data(Vec::new(), &info, vec![full_record("r1"), full_record("r2")]);
    assert_eq!(out.len(), 2);
    assert!(out[0].data.is_empty());
    assert!(out[1].data.is_empty());
    assert_eq!(out[0]._id, "r1");
}

#[test]
fn data_all_passes_matrices_through() {
    let info = baseline_info();
    let out = slice_data(
        vec!["all".to_string()],
        &info,
        vec![full_record("r1")],
    );
    assert_eq!(out[0].data, full_record("r1").data);
    assert!(out[0].data_info.is_none());
}

#[test]
fn known_names_select_rows_in_request_order() {
    let info = baseline_info();
    let out = slice_data(
        vec!["temperature".to_string(), "salinity".to_string()],
        &info,
        vec![full_record("r1")],
    );
    assert_eq!(out.len(), 1);
    assert_eq!(out[0].data, vec![vec![1.0, 2.0, 3.0], vec![4.0, 5.0, 6.0]]);
    let derived = out[0].data_info.as_ref().unwrap();
    assert_eq!(
        derived.0,
        vec!["temperature".to_string(), "salinity".to_string()]
    );
    assert_eq!(derived.1, baseline_info().1);
    assert_eq!(derived.2, vec![vec!["t".to_string()], vec!["s".to_string()]]);
}

#[test]
fn records_left_empty_are_pruned_and_survivors_keep_rows() {
    let info = baseline_info();
    let empty_rec = rec("empty", Vec::new(), Vec::new());
    let out = slice_data(
        vec!["temperature".to_string()],
        &info,
        vec![full_record("r1"), empty_rec, full_record("r2")],
    );
    assert_eq!(out.len(), 2);
    for r in &out {
        assert!(!r.data.is_empty());
    }
    assert_eq!(out[0]._id, "r1");
    assert_eq!(out[1]._id, "r2");
}

#[test]
fn unknown_names_only_prune_everything() {
    let info = baseline_info();
    let out = slice_data(
        vec!["oxygen".to_string()],
        &info,
        vec![full_record("r1")],
    );
    assert!(out.is_empty());
}

#[test]
fn except_data_values_keeps_shape_without_payload() {
    let info = baseline_info();
    let out = slice_data(
        vec!["temperature".to_string(), "except_data_values".to_string()],
        &info,
        vec![full_record("r1")],
    );
    assert_eq!(out.len(), 1);
    assert!(out[0].data.is_empty());
    let derived = out[0].data_info.as_ref().unwrap();
    assert_eq!(derived.0, vec!["temperature".to_string()]);
}

#[test]
fn project_slices_then_selects() {
    let ts = monthly_index();
    let info = baseline_info();
    let mut p = QueryParams::empty();
    p.start_date = Some("2020-01-01T00:00:00Z".to_string());
    p.end_date = Some("2020-02-01T00:00:00Z".to_string());
    p.data = Some("temperature,salinity".to_string());
    let out = project(&p, &ts, &info, vec![full_record("r1")]).unwrap();
    assert_eq!(out.len(), 1);
    assert_eq!(out[0].data, vec![vec![1.0], vec![4.0]]);
    assert_eq!(
        out[0].timeseries,
        Some(vec!["2020-01-01T00:00:00Z".to_string()])
    );
}

#[test]
fn project_rejects_rows_shorter_than_the_window() {
    let ts = monthly_index();
    let info = baseline_info();
    let mut p = QueryParams::empty();
    p.start_date = Some("2020-01-01T00:00:00Z".to_string());
    let short = rec("short", vec![vec![1.0]], Vec::new());
    assert!(project(&p, &ts, &info, vec![short]).is_none());
}

#[test]
fn transform_without_dates_only_selects_channels() {
    let ts = monthly_index();
    let info = baseline_info();
    let mut p = QueryParams::empty();
    p.data = Some("all".to_string());
    let out = transform_timeseries(&p, &ts, &info, vec![full_record("r1")]);
    assert_eq!(out[0].data, full_record("r1").data);
    assert!(out[0].timeseries.is_none());
}

#[test]
fn stub_reduces_to_positional_fields() {
    let stubs = timeseries_stub(vec![full_record("r1")]);
    assert_eq!(stubs.len(), 1);
    assert_eq!(stubs[0]._id, "r1");
    assert_eq!(stubs[0].longitude, 10.0);
    assert_eq!(stubs[0].latitude, -5.0);
    assert_eq!(stubs[0].level, 100.0);
    assert_eq!(stubs[0].metadata, vec!["meta1".to_string()]);
}

#[test]
fn metadata_ids_deduplicate_in_first_occurrence_order() {
    let a = rec("a", Vec::new(), vec!["m1".to_string(), "m2".to_string()]);
    let b = rec("b", Vec::new(), vec!["m2".to_string(), "m3".to_string()]);
    let ids = unique_metadata_ids(&vec![a, b]);
    assert_eq!(
        ids,
        vec!["m1".to_string(), "m2".to_string(), "m3".to_string()]
    );
}

#[test]
fn compression_minimal_wins_over_batchmeta() {
    assert_eq!(
        response_mode(&Some("minimal".to_string()), &Some("true".to_string())),
        ResponseMode::Minimal
    );
    assert_eq!(
        response_mode(&Some("zip".to_string()), &Some("true".to_string())),
        ResponseMode::Records
    );
    assert_eq!(
        response_mode(&None, &Some("true".to_string())),
        ResponseMode::BatchMeta
    );
    assert_eq!(response_mode(&None, &None), ResponseMode::Records);
}

#[test]
fn empty_result_set_is_not_found() {
    let none: Vec<BsoseSchema<f64>> = Vec::new();
    assert_eq!(response_status(&none), ResponseStatus::NotFound);
    assert_eq!(
        response_status(&vec![full_record("r1")]),
        ResponseStatus::Payload
    );
}

#[test]
fn label_rendering_handles_negative_and_out_of_range() {
    assert_eq!(bsondate2string(-86_400_000), "1969-12-31T00:00:00Z");
    assert_eq!(bsondate2string(10_000_000_000_000_000), "Invalid timestamp");
}

#[test]
fn project_rejects_a_crossed_window() {
    let ts = monthly_index();
    let info = baseline_info();
    let mut p = QueryParams::empty();
    p.start_date = Some("2020-02-15T00:00:00Z".to_string());
    p.end_date = Some("2020-02-01T00:00:00Z".to_string());
    assert!(project(&p, &ts, &info, vec![full_record("r1")]).is_none());
}

#[test]
fn record_accessors_read_the_expected_fields() {
    let mut r = full_record("r9");
    assert_eq!(r._id(), "r9");
    assert_eq!(r.longitude(), 10.0);
    assert_eq!(r.latitude(), -5.0);
    assert_eq!(r.level(), 100.0);
    assert_eq!(r.metadata(), vec!["meta1".to_string()]);
    assert!(r.get_timeseries());
    r.set_timeseries(vec!["w1".to_string()]);
    assert_eq!(r.timeseries(), &Some(vec!["w1".to_string()]));
    r.set_data(Vec::new());
    assert!(r.data.is_empty());
}

//! The recognized request parameters, as raw strings.
//!
//! A request hands in a mapping of parameter names to string values; the
//! transport layer extracts the recognized keys into this struct and
//! leaves unknown keys behind. Coordinate-bearing values stay unparsed
//! here: the validator and the filter compiler read them through the
//! crate's own grammar.

use vstd::prelude::*;

verus! {

/// The raw values of the recognized request parameters; `None` where a
/// parameter was not given.
pub struct QueryParams {
    pub polygon: Option<String>,
    pub box_region: Option<String>,
    pub center: Option<String>,
    pub radius: Option<String>,
    pub id: Option<String>,
    pub vertical_range: Option<String>,
    pub start_date: Option<String>,
    pub end_date: Option<String>,
    pub data: Option<String>,
    pub compression: Option<String>,
    pub batchmeta: Option<String>,
    pub page: Option<String>,
}

impl QueryParams {
    /// A request with no parameters set.
    pub fn empty() -> (r: QueryParams)
        ensures
            r.polygon is None,
            r.box_region is None,
            r.center is None,
            r.radius is None,
            r.id is None,
            r.vertical_range is None,
            r.start_date is None,
            r.end_date is None,
            r.data is None,
            r.compression is None,
            r.batchmeta is None,
            r.page is None,
    {
        QueryParams {
            polygon: None,
            box_region: None,
            center: None,
            radius: None,
            id: None,
            vertical_range: None,
            start_date: None,
            end_date: None,
            data: None,
            compression: None,
            batchmeta: None,
            page: None,
        }
    }
}

} // verus!

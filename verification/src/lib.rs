//! Verified core of a geospatial / time-range search service over
//! oceanographic timeseries records.
//!
//! The crate covers the request validator, the coordinate normalizer, the
//! query-to-filter compiler (including antimeridian-aware box splitting),
//! the time-window resolver and the result projection pipeline (time slicing,
//! channel selection, pruning and response shaping).
//!
//! Coordinates, depth levels and radii are carried as integers in micro-units
//! (one millionth of a degree / meter); timestamps are carried as integer
//! milliseconds since the Unix epoch. The numeric payload of a record's data
//! matrix is never interpreted by this logic, so record types are generic
//! over the cell value.

pub mod filters;
pub mod geo;
pub mod params;
pub mod parse;
pub mod response;
pub mod schema;
pub mod time;
pub mod transforms;
pub mod validate;

//! The record shapes that the projection pipeline works on.
//!
//! The data matrix of a record is an opaque numeric payload: the pipeline
//! slices, selects and drops rows and columns but never reads a cell. The
//! types are therefore generic over the cell value `V`. Coordinates and
//! scalar attributes of a record are carried the same way, since the core
//! only moves them around.

use vstd::prelude::*;

verus! {

/// The shared channel descriptor: channel names, shared units and
/// per-channel extra labels, in that order.
pub type DataInfo = (Vec<String>, Vec<String>, Vec<Vec<String>>);

/// A GeoJSON point: a type marker and a [longitude, latitude] pair.
pub struct GeoJSONPoint<V> {
    pub location_type: String,
    pub coordinates: [V; 2],
}

/// Provenance of the canonical metadata record.
pub struct SourceMeta {
    pub source: Vec<String>,
    pub file: String,
}

/// Marks a type as carrying the canonical per-collection metadata.
pub trait IsTimeseriesMeta {
    fn get_timeseries_meta(&self) -> bool;
}

/// One fetched profile record: identifier, geolocation, scalar
/// attributes, the data matrix (rows = channels, columns = time steps),
/// and the derived fields filled in during projection.
pub struct BsoseSchema<V> {
    pub _id: String,
    pub metadata: Vec<String>,
    pub basin: V,
    pub geolocation: GeoJSONPoint<V>,
    pub level: V,
    pub cell_vertical_fraction: V,
    pub sea_binary_mask_at_t_locaiton: bool,
    pub ctrl_vector_3d_mask: bool,
    pub cell_z_size: V,
    pub reference_density_profile: V,
    pub data: Vec<Vec<V>>,
    pub timeseries: Option<Vec<String>>,
    pub data_info: Option<DataInfo>,
}

/// The canonical metadata record: it supplies the shared timestamp index
/// (milliseconds since the epoch) and the baseline channel descriptor.
pub struct BsoseMeta<V> {
    pub _id: String,
    pub data_type: String,
    pub data_info: DataInfo,
    pub date_updated_argovis: i64,
    pub timeseries: Vec<i64>,
    pub source: Vec<SourceMeta>,
    pub cell_area: V,
    pub ocean_depth: V,
    pub depth_r0_to_bottom: V,
    pub interior_2d_mask: bool,
    pub depth_r0_to_ref_surface: V,
}

impl<V> IsTimeseriesMeta for BsoseMeta<V> {
    fn get_timeseries_meta(&self) -> bool {
        true
    }
}

/// The reduced positional projection of a record, serialized downstream
/// as the fixed-order sequence [id, longitude, latitude, level, metadata].
pub struct TimeseriesStub<V> {
    pub _id: String,
    pub longitude: V,
    pub latitude: V,
    pub level: V,
    pub metadata: Vec<String>,
}

/// The views of a list of strings.
pub open spec fn str_views(v: Seq<String>) -> Seq<Seq<char>> {
    v.map_values(|s: String| s@)
}

/// The views of a list of string lists.
pub open spec fn str_views2(v: Seq<Vec<String>>) -> Seq<Seq<Seq<char>>> {
    v.map_values(|s: Vec<String>| str_views(s@))
}

/// The rows of a data matrix, as sequences.
pub open spec fn row_views<V>(v: Seq<Vec<V>>) -> Seq<Seq<V>> {
    v.map_values(|row: Vec<V>| row@)
}

/// A channel descriptor, over mathematical values.
pub struct SpecDataInfo {
    pub names: Seq<Seq<char>>,
    pub units: Seq<Seq<char>>,
    pub labels: Seq<Seq<Seq<char>>>,
}

/// The view of a channel descriptor.
pub open spec fn info_view(info: DataInfo) -> SpecDataInfo {
    SpecDataInfo {
        names: str_views(info.0@),
        units: str_views(info.1@),
        labels: str_views2(info.2@),
    }
}

/// A fetched record, over mathematical values.
pub struct SpecRecord<V> {
    pub id: Seq<char>,
    pub metadata: Seq<Seq<char>>,
    pub basin: V,
    pub location_type: Seq<char>,
    pub lon: V,
    pub lat: V,
    pub level: V,
    pub cell_vertical_fraction: V,
    pub sea_binary_mask_at_t_locaiton: bool,
    pub ctrl_vector_3d_mask: bool,
    pub cell_z_size: V,
    pub reference_density_profile: V,
    pub data: Seq<Seq<V>>,
    pub timeseries: Option<Seq<Seq<char>>>,
    pub data_info: Option<SpecDataInfo>,
}

impl<V> View for BsoseSchema<V> {
    type V = SpecRecord<V>;

    open spec fn view(&self) -> SpecRecord<V> {
        SpecRecord {
            id: self._id@,
            metadata: str_views(self.metadata@),
            basin: self.basin,
            location_type: self.geolocation.location_type@,
            lon: self.geolocation.coordinates@[0],
            lat: self.geolocation.coordinates@[1],
            level: self.level,
            cell_vertical_fraction: self.cell_vertical_fraction,
            sea_binary_mask_at_t_locaiton: self.sea_binary_mask_at_t_locaiton,
            ctrl_vector_3d_mask: self.ctrl_vector_3d_mask,
            cell_z_size: self.cell_z_size,
            reference_density_profile: self.reference_density_profile,
            data: row_views(self.data@),
            timeseries: match &self.timeseries {
                Some(w) => Some(str_views(w@)),
                None => None,
            },
            data_info: match &self.data_info {
                Some(info) => Some(info_view(*info)),
                None => None,
            },
        }
    }
}

impl<V> BsoseSchema<V> {
    /// Marks the record as carrying a timeseries payload.
    pub fn get_timeseries(&self) -> (r: bool)
        ensures
            r,
    {
        true
    }

    /// Replace the data matrix.
    pub fn set_data(&mut self, data: Vec<Vec<V>>)
        ensures
            final(self)@ == (SpecRecord { data: row_views(data@), ..old(self)@ }),
    {
        self.data = data;
    }

    /// The resolved window labels, where the record has been sliced.
    pub fn timeseries(&self) -> (r: &Option<Vec<String>>)
        ensures
            *r == self.timeseries,
    {
        &self.timeseries
    }

    /// Set the resolved window labels.
    pub fn set_timeseries(&mut self, timeseries: Vec<String>)
        ensures
            final(self)@ == (SpecRecord {
                timeseries: Some(str_views(timeseries@)),
                ..old(self)@
            }),
    {
        self.timeseries = Some(timeseries);
    }

    /// Attach a derived channel descriptor.
    pub fn set_data_info(&mut self, data_info: DataInfo)
        ensures
            final(self)@ == (SpecRecord { data_info: Some(info_view(data_info)), ..old(self)@ }),
    {
        self.data_info = Some(data_info);
    }

    /// The record identifier.
    pub fn _id(&self) -> (r: String)
        ensures
            r@ == self@.id,
    {
        self._id.clone()
    }

    /// The metadata identifiers the record references.
    pub fn metadata(&self) -> (r: Vec<String>)
        ensures
            str_views(r@) == self@.metadata,
    {
        crate::transforms::clone_strings(&self.metadata)
    }
}

impl<V: Copy> BsoseSchema<V> {
    /// The record's longitude.
    pub fn longitude(&self) -> (r: V)
        ensures
            r == self@.lon,
    {
        self.geolocation.coordinates[0]
    }

    /// The record's latitude.
    pub fn latitude(&self) -> (r: V)
        ensures
            r == self@.lat,
    {
        self.geolocation.coordinates[1]
    }

    /// The record's vertical level.
    pub fn level(&self) -> (r: V)
        ensures
            r == self@.level,
    {
        self.level
    }
}

/// The views of a list of records.
pub open spec fn record_views<V>(v: Seq<BsoseSchema<V>>) -> Seq<SpecRecord<V>> {
    v.map_values(|r: BsoseSchema<V>| r@)
}

/// A reduced positional projection, over mathematical values.
pub struct SpecStub<V> {
    pub id: Seq<char>,
    pub longitude: V,
    pub latitude: V,
    pub level: V,
    pub metadata: Seq<Seq<char>>,
}

impl<V> View for TimeseriesStub<V> {
    type V = SpecStub<V>;

    open spec fn view(&self) -> SpecStub<V> {
        SpecStub {
            id: self._id@,
            longitude: self.longitude,
            latitude: self.latitude,
            level: self.level,
            metadata: str_views(self.metadata@),
        }
    }
}

/// The views of a list of stubs.
pub open spec fn stub_views<V>(v: Seq<TimeseriesStub<V>>) -> Seq<SpecStub<V>> {
    v.map_values(|r: TimeseriesStub<V>| r@)
}

/// The stub a record reduces to.
pub open spec fn spec_stub<V>(r: SpecRecord<V>) -> SpecStub<V> {
    SpecStub { id: r.id, longitude: r.lon, latitude: r.lat, level: r.level, metadata: r.metadata }
}

} // verus!

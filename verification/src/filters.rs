//! The query-to-filter compiler: turns request parameters into a
//! store-agnostic predicate tree.
//!
//! The tree is a conjunction of zero or more predicates, built in a fixed
//! order: identifier equality, polygon containment, box containment,
//! proximity, vertical range. A box whose first corner's normalized
//! longitude exceeds its second's crosses the antimeridian and is split
//! into two boxes combined by OR — the only disjunction in the tree.
//! Rendering the tree into a concrete store's query syntax is left to the
//! caller.

use vstd::prelude::*;
use crate::geo::{
    normalize_lon,
    normalize_lat,
    validlonlat,
    wrap_lon,
    wrap_lat,
    norm_pair,
    lemma_wrap_lon_bounds,
    lemma_wrap_lat_bounds,
    LON_BOUND,
};
use crate::params::QueryParams;
use crate::parse::{
    spec_parse_pairs,
    spec_parse_numbers,
    spec_parse_scalar,
    parse_pair_array,
    parse_number_array,
    parse_scalar,
    int_seq,
    int_seq2,
    lemma_int_seq_index,
    lemma_int_seq2_len,
};

verus! {

/// A normalized [longitude, latitude] pair in micro-degrees.
#[derive(PartialEq, Eq, Structural, Clone, Copy, Debug)]
pub struct LonLat {
    pub lon: i64,
    pub lat: i64,
}

/// An axis-aligned box given by two corners, in micro-degrees.
#[derive(PartialEq, Eq, Structural, Clone, Copy, Debug)]
pub struct BoxRegion {
    pub corner0: LonLat,
    pub corner1: LonLat,
}

/// One predicate of the compiled filter.
pub enum Predicate {
    /// Equality on the record identifier.
    IdEquals(String),
    /// Containment in the polygon whose sole exterior ring this is.
    GeoWithinPolygon(Vec<Vec<i64>>),
    /// Containment in any of these boxes (their disjunction).
    GeoWithinBoxes(Vec<BoxRegion>),
    /// Proximity: within the given distance, in micro-meters, of the
    /// given point.
    NearPoint(Vec<i64>, i64),
    /// Vertical range: level at least the first bound and below the
    /// second, in micro-units.
    LevelRange(i64, i64),
}

/// The compiled filter: the conjunction of its clauses.
pub struct Filter {
    pub clauses: Vec<Predicate>,
}

/// A predicate, over mathematical values.
pub enum SpecPredicate {
    IdEquals(Seq<char>),
    GeoWithinPolygon(Seq<Seq<int>>),
    GeoWithinBoxes(Seq<BoxRegion>),
    NearPoint(Seq<int>, int),
    LevelRange(int, int),
}

impl View for Predicate {
    type V = SpecPredicate;

    open spec fn view(&self) -> SpecPredicate {
        match self {
            Predicate::IdEquals(s) => SpecPredicate::IdEquals(s@),
            Predicate::GeoWithinPolygon(ring) => SpecPredicate::GeoWithinPolygon(int_seq2(ring@)),
            Predicate::GeoWithinBoxes(bs) => SpecPredicate::GeoWithinBoxes(bs@),
            Predicate::NearPoint(c, r) => SpecPredicate::NearPoint(int_seq(c@), *r as int),
            Predicate::LevelRange(a, b) => SpecPredicate::LevelRange(*a as int, *b as int),
        }
    }
}

/// The clauses of a predicate list, over mathematical values.
pub open spec fn pred_views(s: Seq<Predicate>) -> Seq<SpecPredicate> {
    s.map_values(|c: Predicate| c@)
}

impl View for Filter {
    type V = Seq<SpecPredicate>;

    open spec fn view(&self) -> Seq<SpecPredicate> {
        pred_views(self.clauses@)
    }
}

/// Why a filter could not be compiled: the named parameter does not
/// follow its grammar or shape.
#[derive(PartialEq, Eq, Structural, Clone, Copy, Debug)]
pub enum FilterError {
    MalformedRadius,
    MalformedPolygon,
    MalformedBox,
    MalformedCenter,
    MalformedVerticalRange,
}

/// Coordinate sanitation on one mathematical coordinate list: a
/// two-element pair is normalized, anything else passes through.
pub open spec fn norm_pair_int(p: Seq<int>) -> Seq<int> {
    if p.len() == 2 {
        seq![wrap_lon(p[0]), wrap_lat(p[1])]
    } else {
        p
    }
}

/// Coordinate sanitation over a whole ring.
pub open spec fn norm_ring(ps: Seq<Seq<int>>) -> Seq<Seq<int>> {
    ps.map_values(|p: Seq<int>| norm_pair_int(p))
}

/// Whether a parsed box value has the required shape: at least two
/// points, the first two being coordinate pairs.
pub open spec fn box_shape_ok(o: Option<Seq<Seq<int>>>) -> bool {
    o matches Some(ps) && ps.len() >= 2 && ps[0].len() == 2 && ps[1].len() == 2
}

/// Whether a parsed vertical range has its two bounds.
pub open spec fn vrange_shape_ok(o: Option<Seq<int>>) -> bool {
    o matches Some(vs) && vs.len() >= 2
}

/// The boxes a box request compiles to: the single normalized box, or,
/// where the normalized first corner's longitude exceeds the second's,
/// the two sub-boxes that meet at the antimeridian, in west-then-east
/// order.
pub open spec fn spec_boxes(ps: Seq<Seq<int>>) -> Seq<BoxRegion>
    recommends
        ps.len() >= 2,
        ps[0].len() == 2,
        ps[1].len() == 2,
{
    let c0 = norm_pair_int(ps[0]);
    let c1 = norm_pair_int(ps[1]);
    if c0[0] > c1[0] {
        seq![
            (BoxRegion {
                corner0: LonLat { lon: c0[0] as i64, lat: c0[1] as i64 },
                corner1: LonLat { lon: LON_BOUND, lat: c1[1] as i64 },
            }),
            (BoxRegion {
                corner0: LonLat { lon: (-LON_BOUND) as i64, lat: c0[1] as i64 },
                corner1: LonLat { lon: c1[0] as i64, lat: c1[1] as i64 },
            }),
        ]
    } else {
        seq![
            (BoxRegion {
                corner0: LonLat { lon: c0[0] as i64, lat: c0[1] as i64 },
                corner1: LonLat { lon: c1[0] as i64, lat: c1[1] as i64 },
            }),
        ]
    }
}

/// The first reason compilation fails on a request, in the order the
/// parameters are read: the eagerly parsed radius, then polygon, box,
/// center and vertical range.
pub open spec fn spec_filter_error(p: QueryParams) -> Option<FilterError> {
    if p.radius matches Some(rr) && spec_parse_scalar(rr@) is None {
        Some(FilterError::MalformedRadius)
    } else if p.polygon matches Some(s) && spec_parse_pairs(s@) is None {
        Some(FilterError::MalformedPolygon)
    } else if p.box_region matches Some(s) && !box_shape_ok(spec_parse_pairs(s@)) {
        Some(FilterError::MalformedBox)
    } else if p.center matches Some(c) && p.radius is Some && spec_parse_numbers(c@) is None {
        Some(FilterError::MalformedCenter)
    } else if p.vertical_range matches Some(v) && !vrange_shape_ok(spec_parse_numbers(v@)) {
        Some(FilterError::MalformedVerticalRange)
    } else {
        None
    }
}

/// The clauses a request compiles to, in their fixed order, for a
/// request on which compilation succeeds.
pub open spec fn spec_clauses(p: QueryParams) -> Seq<SpecPredicate>
    recommends
        spec_filter_error(p) is None,
{
    let s0 = Seq::<SpecPredicate>::empty();
    let s1 = if p.id is Some {
        s0.push(SpecPredicate::IdEquals(p.id->Some_0@))
    } else {
        s0
    };
    let s2 = if p.polygon is Some {
        s1.push(
            SpecPredicate::GeoWithinPolygon(norm_ring(spec_parse_pairs(p.polygon->Some_0@)->Some_0)),
        )
    } else {
        s1
    };
    let s3 = if p.box_region is Some {
        s2.push(
            SpecPredicate::GeoWithinBoxes(spec_boxes(spec_parse_pairs(p.box_region->Some_0@)->Some_0)),
        )
    } else {
        s2
    };
    let s4 = if p.center is Some && p.radius is Some {
        s3.push(
            SpecPredicate::NearPoint(
                norm_pair_int(spec_parse_numbers(p.center->Some_0@)->Some_0),
                spec_parse_scalar(p.radius->Some_0@)->Some_0,
            ),
        )
    } else {
        s3
    };
    if p.vertical_range is Some {
        s4.push(
            SpecPredicate::LevelRange(
                spec_parse_numbers(p.vertical_range->Some_0@)->Some_0[0],
                spec_parse_numbers(p.vertical_range->Some_0@)->Some_0[1],
            ),
        )
    } else {
        s4
    }
}

/// What filter compilation returns on a request: its first error, or
/// the clause list.
pub open spec fn spec_filter(p: QueryParams) -> Result<Seq<SpecPredicate>, FilterError> {
    match spec_filter_error(p) {
        Some(e) => Err(e),
        None => Ok(spec_clauses(p)),
    }
}

/// Normalizing a machine-integer coordinate list commutes with reading
/// it as mathematical values.
proof fn lemma_norm_pair_bridge(p: Seq<i64>)
    requires
        forall|j: int| 0 <= j < p.len() ==> p[j] != i64::MIN,
    ensures
        int_seq(norm_pair(p)) == norm_pair_int(int_seq(p)),
{
    lemma_int_seq_index(p);
    lemma_int_seq_index(norm_pair(p));
    if p.len() == 2 {
        lemma_wrap_lon_bounds(p[0] as int);
        lemma_wrap_lat_bounds(p[1] as int);
        assert(int_seq(norm_pair(p)) =~= norm_pair_int(int_seq(p)));
    } else {
        assert(int_seq(norm_pair(p)) =~= norm_pair_int(int_seq(p)));
    }
}

/// Normalizing a whole machine-integer ring commutes with reading it as
/// mathematical values.
proof fn lemma_norm_ring_bridge(v: Seq<Vec<i64>>, w: Seq<Vec<i64>>)
    requires
        w.len() == v.len(),
        forall|k: int| 0 <= k < v.len() ==> #[trigger] w[k]@ == norm_pair(v[k]@),
        forall|k: int, j: int|
            0 <= k < v.len() && 0 <= j < v[k]@.len() ==> #[trigger] v[k]@[j] != i64::MIN,
    ensures
        int_seq2(w) == norm_ring(int_seq2(v)),
{
    lemma_int_seq2_len(v);
    lemma_int_seq2_len(w);
    assert forall|k: int| 0 <= k < v.len() implies #[trigger] int_seq2(w)[k] == norm_ring(
        int_seq2(v),
    )[k] by {
        lemma_norm_pair_bridge(v[k]@);
        assert(int_seq2(w)[k] == int_seq(w[k]@));
        assert(norm_ring(int_seq2(v))[k] == norm_pair_int(int_seq(v[k]@)));
    }
    assert(int_seq2(w) =~= norm_ring(int_seq2(v)));
}

/// A box request splits into exactly two OR'd sub-boxes when and only
/// when the first corner's normalized longitude exceeds the second's;
/// otherwise it compiles to exactly the one normalized box. The split
/// boxes run from the west corner to the antimeridian and from the
/// antimeridian to the east corner.
pub proof fn lemma_box_split(ps: Seq<Seq<int>>)
    requires
        ps.len() >= 2,
        ps[0].len() == 2,
        ps[1].len() == 2,
    ensures
        spec_boxes(ps).len() == 2 <==> wrap_lon(ps[0][0]) > wrap_lon(ps[1][0]),
        spec_boxes(ps).len() == 1 <==> wrap_lon(ps[0][0]) <= wrap_lon(ps[1][0]),
        wrap_lon(ps[0][0]) > wrap_lon(ps[1][0]) ==> spec_boxes(ps) == seq![
            (BoxRegion {
                corner0: LonLat {
                    lon: wrap_lon(ps[0][0]) as i64,
                    lat: wrap_lat(ps[0][1]) as i64,
                },
                corner1: LonLat { lon: LON_BOUND, lat: wrap_lat(ps[1][1]) as i64 },
            }),
            (BoxRegion {
                corner0: LonLat { lon: (-LON_BOUND) as i64, lat: wrap_lat(ps[0][1]) as i64 },
                corner1: LonLat {
                    lon: wrap_lon(ps[1][0]) as i64,
                    lat: wrap_lat(ps[1][1]) as i64,
                },
            }),
        ],
        wrap_lon(ps[0][0]) <= wrap_lon(ps[1][0]) ==> spec_boxes(ps) == seq![
            (BoxRegion {
                corner0: LonLat {
                    lon: wrap_lon(ps[0][0]) as i64,
                    lat: wrap_lat(ps[0][1]) as i64,
                },
                corner1: LonLat {
                    lon: wrap_lon(ps[1][0]) as i64,
                    lat: wrap_lat(ps[1][1]) as i64,
                },
            }),
        ],
{
}

/// Append the identifier-equality predicate.
fn id_filter(id: &str, filter: Vec<Predicate>) -> (r: Vec<Predicate>)
    ensures
        pred_views(r@) == pred_views(filter@).push(SpecPredicate::IdEquals(id@)),
{
    let ghost oldf = filter@;
    let mut f = filter;
    f.push(Predicate::IdEquals(id.to_owned()));
    proof {
        assert(pred_views(f@) =~= pred_views(oldf).push(SpecPredicate::IdEquals(id@)));
    }
    f
}

/// Append the polygon-containment predicate: the ring is parsed and
/// every pair of it normalized.
fn polygon_filter(polygon: &str, filter: Vec<Predicate>) -> (r: Result<Vec<Predicate>, FilterError>)
    ensures
        match r {
            Ok(f) => spec_parse_pairs(polygon@) is Some && pred_views(f@) == pred_views(
                filter@,
            ).push(
                SpecPredicate::GeoWithinPolygon(norm_ring(spec_parse_pairs(polygon@)->Some_0)),
            ),
            Err(e) => spec_parse_pairs(polygon@) is None && e == FilterError::MalformedPolygon,
        },
{
    match parse_pair_array(polygon) {
        None => Err(FilterError::MalformedPolygon),
        Some(coords) => {
            let ghost cv = coords@;
            let normalized = validlonlat(coords);
            proof {
                lemma_norm_ring_bridge(cv, normalized@);
            }
            let ghost oldf = filter@;
            let mut f = filter;
            f.push(Predicate::GeoWithinPolygon(normalized));
            proof {
                assert(pred_views(f@) =~= pred_views(oldf).push(
                    SpecPredicate::GeoWithinPolygon(norm_ring(int_seq2(cv))),
                ));
            }
            Ok(f)
        },
    }
}

/// Append the box-containment predicate: both corners normalized, the
/// box split at the antimeridian where it crosses it.
fn box_filter(boxregion: &str, filter: Vec<Predicate>) -> (r: Result<Vec<Predicate>, FilterError>)
    ensures
        match r {
            Ok(f) => box_shape_ok(spec_parse_pairs(boxregion@)) && pred_views(f@) == pred_views(
                filter@,
            ).push(
                SpecPredicate::GeoWithinBoxes(spec_boxes(spec_parse_pairs(boxregion@)->Some_0)),
            ),
            Err(e) => !box_shape_ok(spec_parse_pairs(boxregion@)) && e == FilterError::MalformedBox,
        },
{
    match parse_pair_array(boxregion) {
        None => Err(FilterError::MalformedBox),
        Some(coords) => {
            proof {
                lemma_int_seq2_len(coords@);
            }
            if coords.len() < 2 {
                return Err(FilterError::MalformedBox);
            }
            if coords[0].len() != 2 || coords[1].len() != 2 {
                return Err(FilterError::MalformedBox);
            }
            let ghost ps = int_seq2(coords@);
            let c0lon = normalize_lon(coords[0][0]);
            let c0lat = normalize_lat(coords[0][1]);
            let c1lon = normalize_lon(coords[1][0]);
            let c1lat = normalize_lat(coords[1][1]);
            proof {
                lemma_int_seq_index(coords@[0]@);
                lemma_int_seq_index(coords@[1]@);
                lemma_wrap_lon_bounds(coords@[0]@[0] as int);
                lemma_wrap_lat_bounds(coords@[0]@[1] as int);
                lemma_wrap_lon_bounds(coords@[1]@[0] as int);
                lemma_wrap_lat_bounds(coords@[1]@[1] as int);
                assert(norm_pair_int(ps[0])[0] == c0lon as int);
                assert(norm_pair_int(ps[0])[1] == c0lat as int);
                assert(norm_pair_int(ps[1])[0] == c1lon as int);
                assert(norm_pair_int(ps[1])[1] == c1lat as int);
            }
            let mut boxes: Vec<BoxRegion> = Vec::new();
            if c0lon > c1lon {
                boxes.push(
                    BoxRegion {
                        corner0: LonLat { lon: c0lon, lat: c0lat },
                        corner1: LonLat { lon: LON_BOUND, lat: c1lat },
                    },
                );
                boxes.push(
                    BoxRegion {
                        corner0: LonLat { lon: -LON_BOUND, lat: c0lat },
                        corner1: LonLat { lon: c1lon, lat: c1lat },
                    },
                );
            } else {
                boxes.push(
                    BoxRegion {
                        corner0: LonLat { lon: c0lon, lat: c0lat },
                        corner1: LonLat { lon: c1lon, lat: c1lat },
                    },
                );
            }
            proof {
                assert(boxes@ =~= spec_boxes(ps));
            }
            let ghost oldf = filter@;
            let mut f = filter;
            f.push(Predicate::GeoWithinBoxes(boxes));
            proof {
                assert(pred_views(f@) =~= pred_views(oldf).push(
                    SpecPredicate::GeoWithinBoxes(spec_boxes(ps)),
                ));
            }
            Ok(f)
        },
    }
}

/// Append the proximity predicate: the center normalized, the radius in
/// micro-meters.
fn center_filter(center: &str, radius: i64, filter: Vec<Predicate>) -> (r: Result<
    Vec<Predicate>,
    FilterError,
>)
    ensures
        match r {
            Ok(f) => spec_parse_numbers(center@) is Some && pred_views(f@) == pred_views(
                filter@,
            ).push(
                SpecPredicate::NearPoint(
                    norm_pair_int(spec_parse_numbers(center@)->Some_0),
                    radius as int,
                ),
            ),
            Err(e) => spec_parse_numbers(center@) is None && e == FilterError::MalformedCenter,
        },
{
    match parse_number_array(center) {
        None => Err(FilterError::MalformedCenter),
        Some(cs) => {
            let ghost csv = cs@;
            let point: Vec<i64> = if cs.len() == 2 {
                let mut q: Vec<i64> = Vec::new();
                q.push(normalize_lon(cs[0]));
                q.push(normalize_lat(cs[1]));
                q
            } else {
                cs
            };
            proof {
                lemma_int_seq_index(csv);
                lemma_int_seq_index(point@);
                if csv.len() == 2 {
                    lemma_wrap_lon_bounds(csv[0] as int);
                    lemma_wrap_lat_bounds(csv[1] as int);
                }
                assert(int_seq(point@) =~= norm_pair_int(int_seq(csv)));
            }
            let ghost oldf = filter@;
            let mut f = filter;
            f.push(Predicate::NearPoint(point, radius));
            proof {
                assert(pred_views(f@) =~= pred_views(oldf).push(
                    SpecPredicate::NearPoint(norm_pair_int(int_seq(csv)), radius as int),
                ));
            }
            Ok(f)
        },
    }
}

/// Append the vertical-range predicate: level at least the first bound
/// and below the second.
fn vertical_range_filter(vertical_range: &str, filter: Vec<Predicate>) -> (r: Result<
    Vec<Predicate>,
    FilterError,
>)
    ensures
        match r {
            Ok(f) => vrange_shape_ok(spec_parse_numbers(vertical_range@)) && pred_views(f@)
                == pred_views(filter@).push(
                SpecPredicate::LevelRange(
                    spec_parse_numbers(vertical_range@)->Some_0[0],
                    spec_parse_numbers(vertical_range@)->Some_0[1],
                ),
            ),
            Err(e) => !vrange_shape_ok(spec_parse_numbers(vertical_range@)) && e
                == FilterError::MalformedVerticalRange,
        },
{
    match parse_number_array(vertical_range) {
        None => Err(FilterError::MalformedVerticalRange),
        Some(vs) => {
            proof {
                lemma_int_seq_index(vs@);
            }
            if vs.len() < 2 {
                return Err(FilterError::MalformedVerticalRange);
            }
            let lo = vs[0];
            let hi = vs[1];
            let ghost oldf = filter@;
            let mut f = filter;
            f.push(Predicate::LevelRange(lo, hi));
            proof {
                assert(pred_views(f@) =~= pred_views(oldf).push(
                    SpecPredicate::LevelRange(lo as int, hi as int),
                ));
            }
            Ok(f)
        },
    }
}

/// Compile a request into the conjunction of its predicates, or report
/// the first parameter whose value does not follow its grammar. Reads
/// the parameters in the service's fixed order and is independent of
/// request validation.
pub fn filter_timeseries(params: &QueryParams) -> (r: Result<Filter, FilterError>)
    ensures
        match r {
            Ok(f) => spec_filter(*params) == Ok::<Seq<SpecPredicate>, FilterError>(f@),
            Err(e) => spec_filter(*params) == Err::<Seq<SpecPredicate>, FilterError>(e),
        },
{
    let mut radius: Option<i64> = None;
    if let Some(rstr) = &params.radius {
        match parse_scalar(rstr.as_str()) {
            None => {
                return Err(FilterError::MalformedRadius);
            },
            Some(v) => {
                radius = Some(v);
            },
        }
    }
    let mut clauses: Vec<Predicate> = Vec::new();
    proof {
        assert(pred_views(clauses@) =~= Seq::<SpecPredicate>::empty());
    }
    if let Some(id) = &params.id {
        clauses = id_filter(id.as_str(), clauses);
    }
    if let Some(polygon) = &params.polygon {
        match polygon_filter(polygon.as_str(), clauses) {
            Ok(c) => {
                clauses = c;
            },
            Err(e) => {
                return Err(e);
            },
        }
    }
    if let Some(boxregion) = &params.box_region {
        match box_filter(boxregion.as_str(), clauses) {
            Ok(c) => {
                clauses = c;
            },
            Err(e) => {
                return Err(e);
            },
        }
    }
    if params.center.is_some() && radius.is_some() {
        let center = match &params.center {
            Some(c) => c,
            None => {
                return Err(FilterError::MalformedCenter);
            },
        };
        let rad = match radius {
            Some(v) => v,
            None => {
                return Err(FilterError::MalformedCenter);
            },
        };
        match center_filter(center.as_str(), rad, clauses) {
            Ok(c) => {
                clauses = c;
            },
            Err(e) => {
                return Err(e);
            },
        }
    }
    if let Some(vertical_range) = &params.vertical_range {
        match vertical_range_filter(vertical_range.as_str(), clauses) {
            Ok(c) => {
                clauses = c;
            },
            Err(e) => {
                return Err(e);
            },
        }
    }
    Ok(Filter { clauses })
}

} // verus!

//! Request validation: pure checks over the raw parameter mapping, run
//! before anything touches the store.
//!
//! The rules: at most one of `polygon`, `box` and `center`; `center` and
//! `radius` both or neither; a given `polygon` must be a well-formed
//! array of two-element coordinate pairs forming a closed ring of at
//! least four points; a given `startDate` or `endDate` must be an
//! RFC 3339 date-and-time value.

use vstd::prelude::*;
use crate::params::QueryParams;
use crate::parse::{spec_parse_pairs, parse_pair_array};
use crate::time::{rfc3339_valid, rfc3339_parses};

verus! {

/// How a given `polygon` value failed validation.
#[derive(PartialEq, Eq, Structural, Clone, Copy, Debug)]
pub enum PolygonIssue {
    /// The value is not one well-formed array of number arrays.
    NotPairsArray,
    /// The ring has fewer than four points.
    TooFewPoints,
    /// The first and last points differ.
    NotClosed,
    /// Some point does not have exactly two coordinates.
    PointNotPair,
}

/// Which date parameter failed validation.
#[derive(PartialEq, Eq, Structural, Clone, Copy, Debug)]
pub enum DateField {
    Start,
    End,
}

/// A violated validation rule.
#[derive(PartialEq, Eq, Structural, Clone, Copy, Debug)]
pub enum ValidationError {
    /// More than one of `polygon`, `box` and `center` was given.
    MutuallyExclusiveGeoFilters,
    /// Exactly one of `center` and `radius` was given.
    IncompleteCenterRadius,
    /// The `polygon` value is not a closed ring of coordinate pairs.
    MalformedPolygon(PolygonIssue),
    /// A date parameter is not an RFC 3339 date-and-time value.
    MalformedDate(DateField),
}

/// The reason text the service gives for each violated rule.
pub open spec fn spec_message(e: ValidationError) -> Seq<char> {
    match e {
        ValidationError::MutuallyExclusiveGeoFilters => "At most one of 'polygon', 'box', or 'center' should be defined"@,
        ValidationError::IncompleteCenterRadius => "'center' and 'radius' should both be defined, or neither should be defined"@,
        ValidationError::MalformedPolygon(PolygonIssue::NotPairsArray) => "'polygon' should be an array of coordinate pairs"@,
        ValidationError::MalformedPolygon(PolygonIssue::TooFewPoints) => "'polygon' should have at least 4 points"@,
        ValidationError::MalformedPolygon(PolygonIssue::NotClosed) => "'polygon' should be a closed ring"@,
        ValidationError::MalformedPolygon(PolygonIssue::PointNotPair) => "Each point in 'polygon' should be a pair of coordinates"@,
        ValidationError::MalformedDate(DateField::Start) => "'startDate' should have the format YYYY-MM-DDTHH:MM:SSZ"@,
        ValidationError::MalformedDate(DateField::End) => "'endDate' should have the format YYYY-MM-DDTHH:MM:SSZ"@,
    }
}

impl ValidationError {
    /// The human-readable reason for this violation, as the service
    /// words it.
    pub fn message(&self) -> (r: String)
        ensures
            r@ == spec_message(*self),
    {
        match self {
            ValidationError::MutuallyExclusiveGeoFilters => "At most one of 'polygon', 'box', or 'center' should be defined".to_owned(),
            ValidationError::IncompleteCenterRadius => "'center' and 'radius' should both be defined, or neither should be defined".to_owned(),
            ValidationError::MalformedPolygon(PolygonIssue::NotPairsArray) => "'polygon' should be an array of coordinate pairs".to_owned(),
            ValidationError::MalformedPolygon(PolygonIssue::TooFewPoints) => "'polygon' should have at least 4 points".to_owned(),
            ValidationError::MalformedPolygon(PolygonIssue::NotClosed) => "'polygon' should be a closed ring".to_owned(),
            ValidationError::MalformedPolygon(PolygonIssue::PointNotPair) => "Each point in 'polygon' should be a pair of coordinates".to_owned(),
            ValidationError::MalformedDate(DateField::Start) => "'startDate' should have the format YYYY-MM-DDTHH:MM:SSZ".to_owned(),
            ValidationError::MalformedDate(DateField::End) => "'endDate' should have the format YYYY-MM-DDTHH:MM:SSZ".to_owned(),
        }
    }
}

/// The polygon checks, in the order the service applies them.
pub open spec fn spec_validate_polygon(s: Seq<char>) -> Result<(), ValidationError> {
    match spec_parse_pairs(s) {
        None => Err(ValidationError::MalformedPolygon(PolygonIssue::NotPairsArray)),
        Some(ps) => {
            if ps.len() < 4 {
                Err(ValidationError::MalformedPolygon(PolygonIssue::TooFewPoints))
            } else if ps[0] != ps[ps.len() - 1] {
                Err(ValidationError::MalformedPolygon(PolygonIssue::NotClosed))
            } else if exists|k: int| 0 <= k < ps.len() && #[trigger] ps[k].len() != 2 {
                Err(ValidationError::MalformedPolygon(PolygonIssue::PointNotPair))
            } else {
                Ok(())
            }
        },
    }
}

/// The date checks: a given `startDate` or `endDate` must be RFC 3339.
pub open spec fn spec_validate_dates(p: QueryParams) -> Result<(), ValidationError> {
    if p.start_date matches Some(s) && !rfc3339_valid(s@) {
        Err(ValidationError::MalformedDate(DateField::Start))
    } else if p.end_date matches Some(s) && !rfc3339_valid(s@) {
        Err(ValidationError::MalformedDate(DateField::End))
    } else {
        Ok(())
    }
}

/// What request validation returns: the first violated rule, in the
/// order the rules are checked, or success.
pub open spec fn spec_validate(p: QueryParams) -> Result<(), ValidationError> {
    let geo_count = (if p.polygon is Some {
        1int
    } else {
        0int
    }) + (if p.box_region is Some {
        1int
    } else {
        0int
    }) + (if p.center is Some {
        1int
    } else {
        0int
    });
    if geo_count > 1 {
        Err(ValidationError::MutuallyExclusiveGeoFilters)
    } else if (p.center is Some) != (p.radius is Some) {
        Err(ValidationError::IncompleteCenterRadius)
    } else {
        match p.polygon {
            Some(s) => if spec_validate_polygon(s@) is Err {
                spec_validate_polygon(s@)
            } else {
                spec_validate_dates(p)
            },
            None => spec_validate_dates(p),
        }
    }
}

/// Whether two machine-integer vectors hold the same values.
pub fn vec_i64_eq(a: &Vec<i64>, b: &Vec<i64>) -> (r: bool)
    ensures
        r <==> a@ == b@,
{
    if a.len() != b.len() {
        return false;
    }
    let mut i: usize = 0;
    while i < a.len()
        invariant
            a@.len() == b@.len(),
            i <= a@.len(),
            forall|k: int| 0 <= k < i ==> a@[k] == b@[k],
        decreases a@.len() - i,
    {
        if a[i] != b[i] {
            return false;
        }
        i += 1;
    }
    proof {
        assert(a@ =~= b@);
    }
    true
}

/// Validate a request against the parameter rules; pure, and run before
/// any store access. Returns the first violated rule.
#[verifier::loop_isolation(false)]
pub fn validate_query_params(params: &QueryParams) -> (r: Result<(), ValidationError>)
    ensures
        r == spec_validate(*params),
{
    let mut count: u32 = 0;
    if params.polygon.is_some() {
        count += 1;
    }
    if params.box_region.is_some() {
        count += 1;
    }
    if params.center.is_some() {
        count += 1;
    }
    if count > 1 {
        return Err(ValidationError::MutuallyExclusiveGeoFilters);
    }
    if params.center.is_some() != params.radius.is_some() {
        return Err(ValidationError::IncompleteCenterRadius);
    }
    if let Some(polygon) = &params.polygon {
        match parse_pair_array(polygon.as_str()) {
            None => {
                return Err(ValidationError::MalformedPolygon(PolygonIssue::NotPairsArray));
            },
            Some(coords) => {
                proof {
                    crate::parse::lemma_int_seq2_len(coords@);
                }
                if coords.len() < 4 {
                    return Err(ValidationError::MalformedPolygon(PolygonIssue::TooFewPoints));
                }
                if !vec_i64_eq(&coords[0], &coords[coords.len() - 1]) {
                    proof {
                        crate::parse::lemma_int_seq_injective(
                            coords@[0]@,
                            coords@[coords@.len() - 1]@,
                        );
                    }
                    return Err(ValidationError::MalformedPolygon(PolygonIssue::NotClosed));
                }
                proof {
                    crate::parse::lemma_int_seq_injective(coords@[0]@, coords@[coords@.len() - 1]@);
                }
                let mut i: usize = 0;
                while i < coords.len()
                    invariant
                        i <= coords@.len(),
                        forall|k: int|
                            0 <= k < i ==> #[trigger] crate::parse::int_seq2(coords@)[k].len()
                                == 2,
                        forall|k: int|
                            0 <= k < coords@.len() ==> #[trigger] crate::parse::int_seq2(
                                coords@,
                            )[k].len() == coords@[k]@.len(),
                    decreases coords@.len() - i,
                {
                    if coords[i].len() != 2 {
                        proof {
                            assert(crate::parse::int_seq2(coords@)[i as int].len() != 2);
                        }
                        return Err(ValidationError::MalformedPolygon(PolygonIssue::PointNotPair));
                    }
                    i += 1;
                }
            },
        }
    }
    if let Some(start_date) = &params.start_date {
        if !rfc3339_parses(start_date.as_str()) {
            return Err(ValidationError::MalformedDate(DateField::Start));
        }
    }
    if let Some(end_date) = &params.end_date {
        if !rfc3339_parses(end_date.as_str()) {
            return Err(ValidationError::MalformedDate(DateField::End));
        }
    }
    Ok(())
}

} // verus!

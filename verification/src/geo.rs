//! Coordinate sanitation: longitude wrap and latitude clamp, on
//! micro-degree integers.
//!
//! The formulas mirror the service's inherited behaviour exactly: the
//! longitude is reduced modulo 360 degrees with the sign of the input
//! (a truncated remainder) and then shifted into range; the latitude is
//! reduced modulo 180 degrees the same way and then clamped to
//! [-90, 90] degrees. The latitude rule is not a true spherical wrap for
//! out-of-range inputs; it is preserved as specified.

use vstd::prelude::*;

verus! {

/// 360 degrees in micro-degrees: the period of the longitude wrap.
pub const LON_PERIOD: i64 = 360_000_000;

/// 180 degrees in micro-degrees: the east/west bound of a longitude and
/// the period of the latitude reduction.
pub const LON_BOUND: i64 = 180_000_000;

/// 90 degrees in micro-degrees: the north/south bound of a latitude.
pub const LAT_BOUND: i64 = 90_000_000;

/// Remainder with the sign of the dividend (Rust's `%` on primitives),
/// stated over mathematical integers.
pub open spec fn tmod(a: int, n: int) -> int
    recommends
        n > 0,
{
    if a >= 0 {
        a % n
    } else {
        -((-a) % n)
    }
}

/// The longitude wrap: reduce modulo 360 degrees keeping the dividend's
/// sign, then shift by one period when the result lies beyond 180 degrees
/// on either side.
pub open spec fn wrap_lon(x: int) -> int {
    let m = tmod(x, LON_PERIOD as int);
    if m > LON_BOUND as int {
        m - LON_PERIOD as int
    } else if m < -(LON_BOUND as int) {
        m + LON_PERIOD as int
    } else {
        m
    }
}

/// The latitude rule: reduce modulo 180 degrees keeping the dividend's
/// sign, then clamp to [-90, 90] degrees.
pub open spec fn wrap_lat(x: int) -> int {
    let m = tmod(x, LON_BOUND as int);
    if m > LAT_BOUND as int {
        LAT_BOUND as int
    } else if m < -(LAT_BOUND as int) {
        -(LAT_BOUND as int)
    } else {
        m
    }
}

/// What coordinate sanitation does to one raw coordinate list: a
/// two-element [lon, lat] pair is normalized, anything of another length
/// passes through untouched.
pub open spec fn norm_pair(p: Seq<i64>) -> Seq<i64> {
    if p.len() == 2 {
        seq![wrap_lon(p[0] as int) as i64, wrap_lat(p[1] as int) as i64]
    } else {
        p
    }
}

/// Truncated remainder of `a` by `n`, for positive `n`.
fn trunc_rem(a: i64, n: i64) -> (r: i64)
    requires
        a != i64::MIN,
        0 < n,
    ensures
        r == tmod(a as int, n as int),
{
    if a >= 0 {
        let q: u64 = (a as u64) % (n as u64);
        q as i64
    } else {
        let q: u64 = ((-a) as u64) % (n as u64);
        -(q as i64)
    }
}

/// Normalize one longitude, in micro-degrees.
pub fn normalize_lon(x: i64) -> (r: i64)
    requires
        x != i64::MIN,
    ensures
        r == wrap_lon(x as int),
{
    let m = trunc_rem(x, LON_PERIOD);
    if m > LON_BOUND {
        m - LON_PERIOD
    } else if m < -LON_BOUND {
        m + LON_PERIOD
    } else {
        m
    }
}

/// Normalize one latitude, in micro-degrees.
pub fn normalize_lat(x: i64) -> (r: i64)
    requires
        x != i64::MIN,
    ensures
        r == wrap_lat(x as int),
{
    let m = trunc_rem(x, LON_BOUND);
    if m > LAT_BOUND {
        LAT_BOUND
    } else if m < -LAT_BOUND {
        -LAT_BOUND
    } else {
        m
    }
}

/// Coordinate sanitation over a list of raw coordinate lists: every
/// two-element [lon, lat] pair is normalized in place; lists of any other
/// length are passed through unchanged.
pub fn validlonlat(coords: Vec<Vec<i64>>) -> (r: Vec<Vec<i64>>)
    requires
        forall|i: int, j: int|
            0 <= i < coords@.len() && 0 <= j < coords@[i]@.len() ==> coords@[i]@[j] != i64::MIN,
    ensures
        r@.len() == coords@.len(),
        forall|i: int| 0 <= i < coords@.len() ==> r@[i]@ == norm_pair(coords@[i]@),
{
    let mut out: Vec<Vec<i64>> = Vec::new();
    let mut i: usize = 0;
    while i < coords.len()
        invariant
            i <= coords@.len(),
            out@.len() == i,
            forall|k: int| 0 <= k < i ==> out@[k]@ == norm_pair(coords@[k]@),
            forall|k: int, j: int|
                0 <= k < coords@.len() && 0 <= j < coords@[k]@.len() ==> coords@[k]@[j]
                    != i64::MIN,
        decreases coords@.len() - i,
    {
        let p = &coords[i];
        let mut q: Vec<i64> = Vec::new();
        if p.len() == 2 {
            q.push(normalize_lon(p[0]));
            q.push(normalize_lat(p[1]));
            proof {
                lemma_wrap_lon_bounds(p@[0] as int);
                lemma_wrap_lat_bounds(p@[1] as int);
                assert(q@ =~= norm_pair(coords@[i as int]@));
            }
        } else {
            let mut j: usize = 0;
            while j < p.len()
                invariant
                    j <= p@.len(),
                    q@ == p@.subrange(0, j as int),
                decreases p@.len() - j,
            {
                q.push(p[j]);
                proof {
                    assert(q@ =~= p@.subrange(0, j + 1 as int));
                }
                j += 1;
            }
            proof {
                assert(q@ =~= p@);
            }
        }
        out.push(q);
        i += 1;
    }
    out
}

/// A wrapped longitude lies within 180 degrees of zero on either side.
pub proof fn lemma_wrap_lon_bounds(x: int)
    ensures
        -(LON_BOUND as int) <= wrap_lon(x) <= LON_BOUND as int,
{
}

/// A wrapped latitude lies within 90 degrees of zero on either side.
pub proof fn lemma_wrap_lat_bounds(x: int)
    ensures
        -(LAT_BOUND as int) <= wrap_lat(x) <= LAT_BOUND as int,
{
}

/// The longitude wrap is idempotent.
pub proof fn lemma_wrap_lon_idempotent(x: int)
    ensures
        wrap_lon(wrap_lon(x)) == wrap_lon(x),
{
    lemma_wrap_lon_bounds(x);
}

/// The latitude rule is idempotent.
pub proof fn lemma_wrap_lat_idempotent(x: int)
    ensures
        wrap_lat(wrap_lat(x)) == wrap_lat(x),
{
    lemma_wrap_lat_bounds(x);
}

/// Whenever the truncated remainder of the input by 360 degrees is not
/// exactly -180 degrees, the wrapped longitude lies in the half-open
/// interval (-180, 180] degrees. The one excluded family of inputs (for
/// example -180 degrees itself) wraps to -180 degrees.
pub proof fn lemma_wrap_lon_half_open(x: int)
    requires
        tmod(x, LON_PERIOD as int) != -(LON_BOUND as int),
    ensures
        -(LON_BOUND as int) < wrap_lon(x) <= LON_BOUND as int,
{
}

/// Coordinate sanitation is idempotent on whole pairs.
pub proof fn lemma_norm_pair_idempotent(p: Seq<i64>)
    ensures
        norm_pair(norm_pair(p)) == norm_pair(p),
{
    if p.len() == 2 {
        lemma_wrap_lon_bounds(p[0] as int);
        lemma_wrap_lat_bounds(p[1] as int);
        lemma_wrap_lon_idempotent(p[0] as int);
        lemma_wrap_lat_idempotent(p[1] as int);
        assert(norm_pair(norm_pair(p)) =~= norm_pair(p));
    }
}

/// Coordinate sanitation is idempotent over a whole list of coordinate
/// lists: running it a second time changes nothing.
pub proof fn lemma_norm_all_idempotent(ps: Seq<Seq<i64>>)
    ensures
        ps.map_values(|p: Seq<i64>| norm_pair(p)).map_values(|p: Seq<i64>| norm_pair(p))
            == ps.map_values(|p: Seq<i64>| norm_pair(p)),
{
    let once = ps.map_values(|p: Seq<i64>| norm_pair(p));
    assert forall|k: int| 0 <= k < ps.len() implies #[trigger] norm_pair(once[k]) == once[k] by {
        lemma_norm_pair_idempotent(ps[k]);
    }
    assert(once.map_values(|p: Seq<i64>| norm_pair(p)) =~= once);
}

} // verus!

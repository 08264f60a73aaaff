//! Response-shape policy: which payload a request's `compression` and
//! `batchmeta` parameters select, the metadata identifiers a batch
//! fetch asks for, and the not-found rule for an empty result set.

use vstd::prelude::*;
use crate::schema::{BsoseSchema, str_views};
use crate::transforms::contains_name;

verus! {

/// How a response is shaped.
#[derive(PartialEq, Eq, Structural, Clone, Copy, Debug)]
pub enum ResponseMode {
    /// Reduce every surviving record to its positional stub.
    Minimal,
    /// Fetch and return the batch of referenced metadata records; the
    /// primary records are not also returned.
    BatchMeta,
    /// Return the projected records themselves.
    Records,
}

/// Which shape the parameters select: a given `compression` of
/// `minimal` reduces to stubs, any other given `compression` returns
/// the records, and only with no `compression` at all does a given
/// `batchmeta` select the metadata batch.
pub open spec fn spec_response_mode(
    compression: Option<String>,
    batchmeta: Option<String>,
) -> ResponseMode {
    match compression {
        Some(c) => if c@ == "minimal"@ {
            ResponseMode::Minimal
        } else {
            ResponseMode::Records
        },
        None => match batchmeta {
            Some(_) => ResponseMode::BatchMeta,
            None => ResponseMode::Records,
        },
    }
}

/// Pick the response shape for a request.
pub fn response_mode(compression: &Option<String>, batchmeta: &Option<String>) -> (r: ResponseMode)
    ensures
        r == spec_response_mode(*compression, *batchmeta),
{
    match compression {
        Some(c) => {
            let m = "minimal".to_owned();
            if *c == m {
                ResponseMode::Minimal
            } else {
                ResponseMode::Records
            }
        },
        None => {
            if batchmeta.is_some() {
                ResponseMode::BatchMeta
            } else {
                ResponseMode::Records
            }
        },
    }
}

/// Whether a projected result set renders as a payload or as the
/// distinguished not-found response.
#[derive(PartialEq, Eq, Structural, Clone, Copy, Debug)]
pub enum ResponseStatus {
    NotFound,
    Payload,
}

/// An empty surviving set yields the distinguished not-found response;
/// anything else is a payload.
pub fn response_status<T>(results: &Vec<T>) -> (r: ResponseStatus)
    ensures
        r == (if results@.len() == 0 {
            ResponseStatus::NotFound
        } else {
            ResponseStatus::Payload
        }),
{
    if results.is_empty() {
        ResponseStatus::NotFound
    } else {
        ResponseStatus::Payload
    }
}

/// Whether some record of the list references `x` among its metadata
/// identifiers.
pub open spec fn is_meta_id<V>(rs: Seq<BsoseSchema<V>>, x: Seq<char>) -> bool {
    exists|k: int, m: int|
        0 <= k < rs.len() && 0 <= m < rs[k].metadata@.len() && #[trigger] rs[k].metadata@[m]@ == x
}

/// A name list keeps everything it contains when a string is appended.
proof fn lemma_contains_push(v: Seq<Seq<char>>, x: Seq<char>, y: Seq<char>)
    requires
        contains_name(v, y),
    ensures
        contains_name(v.push(x), y),
{
    let k = choose|k: int| 0 <= k < v.len() && v[k] == y;
    assert(v.push(x)[k] == y);
}

/// The distinct metadata identifiers the records reference: each one
/// appears exactly once, in first-occurrence order, and nothing else
/// appears.
#[verifier::loop_isolation(false)]
pub fn unique_metadata_ids<V>(results: &Vec<BsoseSchema<V>>) -> (r: Vec<String>)
    ensures
        forall|i: int, j: int| 0 <= i < j < r@.len() ==> r@[i]@ != r@[j]@,
        forall|i: int| 0 <= i < r@.len() ==> is_meta_id(results@, #[trigger] r@[i]@),
        forall|k: int, m: int|
            0 <= k < results@.len() && 0 <= m < results@[k].metadata@.len() ==> contains_name(
                str_views(r@),
                #[trigger] results@[k].metadata@[m]@,
            ),
{
    let mut out: Vec<String> = Vec::new();
    let mut k: usize = 0;
    while k < results.len()
        invariant
            k <= results@.len(),
            forall|i: int, j: int| 0 <= i < j < out@.len() ==> out@[i]@ != out@[j]@,
            forall|i: int| 0 <= i < out@.len() ==> is_meta_id(results@, #[trigger] out@[i]@),
            forall|a: int, m: int|
                0 <= a < k && 0 <= m < results@[a].metadata@.len() ==> contains_name(
                    str_views(out@),
                    #[trigger] results@[a].metadata@[m]@,
                ),
        decreases results@.len() - k,
    {
        let mut m: usize = 0;
        while m < results[k].metadata.len()
            invariant
                k < results@.len(),
                m <= results@[k as int].metadata@.len(),
                forall|i: int, j: int| 0 <= i < j < out@.len() ==> out@[i]@ != out@[j]@,
                forall|i: int| 0 <= i < out@.len() ==> is_meta_id(results@, #[trigger] out@[i]@),
                forall|a: int, mm: int|
                    0 <= a < k && 0 <= mm < results@[a].metadata@.len() ==> contains_name(
                        str_views(out@),
                        #[trigger] results@[a].metadata@[mm]@,
                    ),
                forall|mm: int|
                    0 <= mm < m ==> contains_name(
                        str_views(out@),
                        #[trigger] results@[k as int].metadata@[mm]@,
                    ),
            decreases results@[k as int].metadata@.len() - m,
        {
            let s = &results[k].metadata[m];
            let ghost newv = results@[k as int].metadata@[m as int]@;
            if !crate::transforms::contains_string(&out, s.as_str()) {
                let ghost oldout = out@;
                out.push(s.clone());
                proof {
                    assert(str_views(out@) =~= str_views(oldout).push(newv));
                    assert(forall|i: int|
                        0 <= i < oldout.len() ==> #[trigger] str_views(oldout)[i] == oldout[i]@);
                    assert(forall|i: int|
                        0 <= i < out@.len() ==> #[trigger] str_views(out@)[i] == out@[i]@);
                    assert(0 <= (m as int) < results@[k as int].metadata@.len());
                    assert(is_meta_id(results@, newv));
                    assert(str_views(out@)[out@.len() - 1] == newv);
                    assert(contains_name(str_views(out@), newv));
                    assert forall|i: int, j: int|
                        0 <= i < j < out@.len() implies out@[i]@ != out@[j]@ by {
                        if j == out@.len() - 1 {
                            assert(out@[i]@ == str_views(oldout)[i]);
                        }
                    }
                    assert forall|x: Seq<char>|
                        contains_name(str_views(oldout), x) implies contains_name(
                        str_views(out@),
                        x,
                    ) by {
                        lemma_contains_push(str_views(oldout), newv, x);
                    }
                }
            }
            proof {
                assert(forall|i: int|
                    0 <= i < out@.len() ==> #[trigger] str_views(out@)[i] == out@[i]@);
            }
            m += 1;
        }
        k += 1;
    }
    out
}

} // verus!

//! The result projection pipeline: time-window slicing, channel
//! selection, pruning and stub reduction, on fetched records.

use vstd::prelude::*;
use crate::schema::{
    BsoseSchema,
    TimeseriesStub,
    DataInfo,
    SpecRecord,
    SpecDataInfo,
    spec_stub,
    record_views,
    stub_views,
    str_views,
    str_views2,
    row_views,
    info_view,
};
use crate::time::{date_label, bsondate2string, string2bsondate, datetime_parse_millis};
use crate::geo::tmod;
use crate::params::QueryParams;

verus! {

/// The first position at or after `i` whose timestamp reaches `sd`.
pub open spec fn first_at_least(ts: Seq<i64>, sd: i64, i: int) -> Option<int>
    recommends
        0 <= i <= ts.len(),
    decreases ts.len() - i,
{
    if 0 <= i < ts.len() {
        if ts[i] >= sd {
            Some(i)
        } else {
            first_at_least(ts, sd, i + 1)
        }
    } else {
        None
    }
}

/// The last position before `i` whose timestamp lies below `ed`.
pub open spec fn last_below(ts: Seq<i64>, ed: i64, i: int) -> Option<int>
    recommends
        0 <= i <= ts.len(),
    decreases i,
{
    if 0 < i <= ts.len() {
        if ts[i - 1] < ed {
            Some(i - 1)
        } else {
            last_below(ts, ed, i - 1)
        }
    } else {
        None
    }
}

/// The half-open offset window the service resolves for a pair of
/// optional date bounds: the first position reaching the start (0 where
/// none is given or none reaches it), and one past the last position
/// below the end (the index length where none is given or none lies
/// below it).
pub open spec fn spec_window(ts: Seq<i64>, start: Option<i64>, end: Option<i64>) -> (int, int) {
    let s = match start {
        None => 0int,
        Some(sd) => match first_at_least(ts, sd, 0) {
            Some(j) => j,
            None => 0int,
        },
    };
    let e = match end {
        None => ts.len() as int,
        Some(ed) => match last_below(ts, ed, ts.len() as int) {
            Some(j) => j + 1,
            None => ts.len() as int,
        },
    };
    (s, e)
}

/// What the first-position scan finds: the earliest qualifying position,
/// with everything before it not qualifying.
pub proof fn lemma_first_at_least(ts: Seq<i64>, sd: i64, i: int)
    requires
        0 <= i <= ts.len(),
    ensures
        first_at_least(ts, sd, i) matches Some(j) ==> i <= j < ts.len() && ts[j] >= sd && (forall|
            k: int,
        |
            i <= k < j ==> ts[k] < sd),
        first_at_least(ts, sd, i) is None ==> forall|k: int| i <= k < ts.len() ==> ts[k] < sd,
    decreases ts.len() - i,
{
    if 0 <= i < ts.len() && ts[i] < sd {
        lemma_first_at_least(ts, sd, i + 1);
    }
}

/// What the last-position scan finds: the latest qualifying position,
/// with everything after it not qualifying.
pub proof fn lemma_last_below(ts: Seq<i64>, ed: i64, i: int)
    requires
        0 <= i <= ts.len(),
    ensures
        last_below(ts, ed, i) matches Some(j) ==> 0 <= j < i && ts[j] < ed && (forall|k: int|
            j < k < i ==> ts[k] >= ed),
        last_below(ts, ed, i) is None ==> forall|k: int| 0 <= k < i ==> ts[k] >= ed,
    decreases i,
{
    if 0 < i <= ts.len() && !(ts[i - 1] < ed) {
        lemma_last_below(ts, ed, i - 1);
    }
}

/// The resolved window stays within the index.
pub proof fn lemma_window_bounds(ts: Seq<i64>, start: Option<i64>, end: Option<i64>)
    ensures
        0 <= spec_window(ts, start, end).0 <= ts.len(),
        0 <= spec_window(ts, start, end).1 <= ts.len(),
{
    match start {
        Some(sd) => lemma_first_at_least(ts, sd, 0),
        None => {},
    }
    match end {
        Some(ed) => lemma_last_below(ts, ed, ts.len() as int),
        None => {},
    }
}

/// On a non-decreasing index, whenever each given date bound is met by
/// some timestamp, the resolved half-open window holds exactly the
/// positions whose timestamps lie in [start, end); with no dates given
/// it is the whole index.
pub proof fn lemma_window_tightest(ts: Seq<i64>, start: Option<i64>, end: Option<i64>)
    requires
        forall|a: int, b: int| 0 <= a <= b < ts.len() ==> ts[a] <= ts[b],
        start matches Some(sd) ==> exists|j: int| 0 <= j < ts.len() && ts[j] >= sd,
        end matches Some(ed) ==> exists|j: int| 0 <= j < ts.len() && ts[j] < ed,
    ensures
        spec_window(ts, None, None) == (0int, ts.len() as int),
        forall|j: int|
            (spec_window(ts, start, end).0 <= j < spec_window(ts, start, end).1) <==> (0 <= j
                < ts.len() && (start matches Some(sd) ==> #[trigger] ts[j] >= sd) && (
            end matches Some(ed) ==> ts[j] < ed)),
{
    let s = spec_window(ts, start, end).0;
    let e = spec_window(ts, start, end).1;
    match start {
        Some(sd) => {
            lemma_first_at_least(ts, sd, 0);
            assert(first_at_least(ts, sd, 0) is Some);
        },
        None => {},
    }
    match end {
        Some(ed) => {
            lemma_last_below(ts, ed, ts.len() as int);
            assert(last_below(ts, ed, ts.len() as int) is Some);
        },
        None => {},
    }
    assert forall|j: int|
        (s <= j < e) <==> (0 <= j < ts.len() && (start matches Some(sd) ==> #[trigger] ts[j]
            >= sd) && (end matches Some(ed) ==> ts[j] < ed)) by {
        if s <= j < e {
            match start {
                Some(sd) => {
                    assert(ts[s] >= sd);
                    assert(ts[s] <= ts[j]);
                },
                None => {},
            }
            match end {
                Some(ed) => {
                    assert(ts[e - 1] < ed);
                    assert(ts[j] <= ts[e - 1]);
                },
                None => {},
            }
        } else if 0 <= j < ts.len() {
            if j < s {
                match start {
                    Some(sd) => {
                        assert(ts[j] < sd);
                    },
                    None => {},
                }
            } else {
                match end {
                    Some(ed) => {
                        if j >= e {
                            assert(ts[j] >= ed);
                        }
                    },
                    None => {},
                }
            }
        }
    }
}

/// Resolve the half-open offset window for the optional date bounds,
/// each in epoch milliseconds, against the shared timestamp index.
pub fn resolve_window(ts: &Vec<i64>, start_date: Option<i64>, end_date: Option<i64>) -> (r: (
    usize,
    usize,
))
    ensures
        (r.0 as int, r.1 as int) == spec_window(ts@, start_date, end_date),
        r.0 <= ts@.len(),
        r.1 <= ts@.len(),
{
    proof {
        lemma_window_bounds(ts@, start_date, end_date);
    }
    let mut s: usize = 0;
    match start_date {
        Some(sd) => {
            let mut i: usize = 0;
            let mut found = false;
            loop
                invariant_except_break
                    !found,
                invariant
                    i as int <= ts@.len(),
                    first_at_least(ts@, sd, 0) == first_at_least(ts@, sd, i as int),
                ensures
                    i as int <= ts@.len(),
                    found ==> first_at_least(ts@, sd, 0) == Some(i as int),
                    !found ==> first_at_least(ts@, sd, 0) is None,
                decreases ts@.len() - i,
            {
                if i >= ts.len() {
                    break ;
                }
                if ts[i] >= sd {
                    found = true;
                    break ;
                }
                i += 1;
            }
            if found {
                s = i;
            }
        },
        None => {},
    }
    let mut e: usize = ts.len();
    match end_date {
        Some(ed) => {
            let mut i: usize = ts.len();
            let mut found = false;
            loop
                invariant_except_break
                    last_below(ts@, ed, ts@.len() as int) == last_below(ts@, ed, i as int),
                    !found,
                invariant
                    i as int <= ts@.len(),
                ensures
                    ((i as int) < ts@.len()) || (i == 0),
                    found ==> last_below(ts@, ed, ts@.len() as int) == Some(i as int),
                    !found ==> last_below(ts@, ed, ts@.len() as int) is None,
                decreases i,
            {
                if i == 0 {
                    break ;
                }
                if ts[i - 1] < ed {
                    i = i - 1;
                    found = true;
                    break ;
                }
                i -= 1;
            }
            if found {
                e = i + 1;
            } else {
                e = ts.len();
            }
        },
        None => {},
    }
    (s, e)
}

/// The window labels: each timestamp of the resolved window rendered as
/// a date label.
pub open spec fn window_label_seq(ts: Seq<i64>, s: int, e: int) -> Seq<Seq<char>>
    recommends
        0 <= s <= e <= ts.len(),
{
    ts.subrange(s, e).map_values(|t: i64| date_label(t as int))
}

/// A record with its matrix columns truncated to the window and its
/// window labels set; everything else untouched.
pub open spec fn spec_slice_record<V>(
    r: SpecRecord<V>,
    s: int,
    e: int,
    labels: Seq<Seq<char>>,
) -> SpecRecord<V> {
    SpecRecord {
        data: r.data.map_values(|row: Seq<V>| row.subrange(s, e)),
        timeseries: Some(labels),
        ..r
    }
}

/// Render the labels of the timestamps in the half-open window [s, e).
#[verifier::loop_isolation(false)]
fn window_labels(ts: &Vec<i64>, s: usize, e: usize) -> (r: Vec<String>)
    requires
        s <= e <= ts@.len(),
        forall|j: int| 0 <= j < ts@.len() ==> (ts@[j] >= 0 || tmod(ts@[j] as int, 1000) == 0),
    ensures
        str_views(r@) == window_label_seq(ts@, s as int, e as int),
{
    let mut out: Vec<String> = Vec::new();
    let mut j = s;
    while j < e
        invariant
            s <= j <= e,
            out@.len() == j - s,
            forall|m: int|
                0 <= m < out@.len() ==> #[trigger] out@[m]@ == date_label(ts@[s + m] as int),
        decreases e - j,
    {
        out.push(bsondate2string(ts[j]));
        j += 1;
    }
    proof {
        assert(str_views(out@) =~= window_label_seq(ts@, s as int, e as int));
    }
    out
}

/// Truncate every record's data-matrix columns to the window the date
/// bounds resolve to, and set each record's window labels to the
/// rendered timestamps of that window. Requires the resolved window to
/// be in order and within every matrix row.
#[verifier::loop_isolation(false)]
pub fn slice_timerange<V: Copy>(
    start_date: Option<i64>,
    end_date: Option<i64>,
    ts: &Vec<i64>,
    results: Vec<BsoseSchema<V>>,
) -> (r: Vec<BsoseSchema<V>>)
    requires
        spec_window(ts@, start_date, end_date).0 <= spec_window(ts@, start_date, end_date).1,
        forall|j: int| 0 <= j < ts@.len() ==> (ts@[j] >= 0 || tmod(ts@[j] as int, 1000) == 0),
        forall|k: int, m: int|
            0 <= k < results@.len() && 0 <= m < results@[k].data@.len()
                ==> #[trigger] results@[k].data@[m]@.len() >= spec_window(
                ts@,
                start_date,
                end_date,
            ).1,
    ensures
        r@.len() == results@.len(),
        forall|k: int|
            0 <= k < results@.len() ==> #[trigger] r@[k]@ == spec_slice_record(
                results@[k]@,
                spec_window(ts@, start_date, end_date).0,
                spec_window(ts@, start_date, end_date).1,
                window_label_seq(
                    ts@,
                    spec_window(ts@, start_date, end_date).0,
                    spec_window(ts@, start_date, end_date).1,
                ),
            ),
{
    let (start_index, end_index) = resolve_window(ts, start_date, end_date);
    let ghost se = start_index as int;
    let ghost ee = end_index as int;
    let ghost orig = results@;
    let mut results = results;
    let mut k: usize = 0;
    while k < results.len()
        invariant
            k <= orig.len(),
            results@.len() == orig.len(),
            forall|i: int| k <= i < orig.len() ==> #[trigger] results@[i] == orig[i],
            forall|i: int|
                0 <= i < k ==> #[trigger] results@[i]@ == spec_slice_record(
                    orig[i]@,
                    se,
                    ee,
                    window_label_seq(ts@, se, ee),
                ),
        decreases orig.len() - k,
    {
        let mut newdata: Vec<Vec<V>> = Vec::new();
        let mut m: usize = 0;
        while m < results[k].data.len()
            invariant
                k < results@.len(),
                m <= results@[k as int].data@.len(),
                newdata@.len() == m,
                forall|i: int|
                    0 <= i < m ==> #[trigger] newdata@[i]@ == results@[k as int].data@[i]@.subrange(
                        se,
                        ee,
                    ),
            decreases results@[k as int].data@.len() - m,
        {
            let row = &results[k].data[m];
            let mut newrow: Vec<V> = Vec::new();
            let mut j = start_index;
            while j < end_index
                invariant
                    start_index <= j <= end_index,
                    end_index <= row@.len(),
                    newrow@.len() == j - start_index,
                    forall|i: int|
                        0 <= i < newrow@.len() ==> #[trigger] newrow@[i] == row@[se + i],
                decreases end_index - j,
            {
                newrow.push(row[j]);
                j += 1;
            }
            proof {
                assert(newrow@ =~= row@.subrange(se, ee));
            }
            newdata.push(newrow);
            m += 1;
        }
        let labels = window_labels(ts, start_index, end_index);
        let ghost labv = str_views(labels@);
        let rec = &mut results[k];
        rec.data = newdata;
        rec.timeseries = Some(labels);
        proof {
            assert(row_views(results@[k as int].data@) =~= orig[k as int]@.data.map_values(
                |row: Seq<V>| row.subrange(se, ee),
            ));
            assert(results@[k as int]@ == spec_slice_record(
                orig[k as int]@,
                se,
                ee,
                window_label_seq(ts@, se, ee),
            ));
        }
        k += 1;
    }
    results
}

/// Whether some string of the list reads exactly `x`.
pub open spec fn contains_name(v: Seq<Seq<char>>, x: Seq<char>) -> bool {
    exists|k: int| 0 <= k < v.len() && v[k] == x
}

/// The first position at or after `i` whose name reads exactly `x`.
pub open spec fn name_pos(names: Seq<Seq<char>>, x: Seq<char>, i: int) -> Option<int>
    recommends
        0 <= i <= names.len(),
    decreases names.len() - i,
{
    if 0 <= i < names.len() {
        if names[i] == x {
            Some(i)
        } else {
            name_pos(names, x, i + 1)
        }
    } else {
        None
    }
}

/// The row indices the requested names resolve to against the baseline
/// names, in request order; names not in the baseline are silently
/// dropped.
pub open spec fn spec_indexes(names: Seq<Seq<char>>, req: Seq<Seq<char>>) -> Seq<int>
    decreases req.len(),
{
    if req.len() == 0 {
        Seq::empty()
    } else {
        let rest = spec_indexes(names, req.drop_last());
        match name_pos(names, req.last(), 0) {
            Some(j) => rest.push(j),
            None => rest,
        }
    }
}

/// The elements of `rows` at the positions of `idxs` that exist, in
/// that order.
pub open spec fn select_rows<T>(rows: Seq<T>, idxs: Seq<int>) -> Seq<T>
    decreases idxs.len(),
{
    if idxs.len() == 0 {
        Seq::empty()
    } else {
        let rest = select_rows(rows, idxs.drop_last());
        if 0 <= idxs.last() < rows.len() {
            rest.push(rows[idxs.last()])
        } else {
            rest
        }
    }
}

/// The descriptor derived for a row selection: the selected names and
/// per-channel labels, the shared units unchanged.
pub open spec fn spec_derived_info(info: SpecDataInfo, idxs: Seq<int>) -> SpecDataInfo {
    SpecDataInfo {
        names: select_rows(info.names, idxs),
        units: info.units,
        labels: select_rows(info.labels, idxs),
    }
}

/// A record after channel selection: the selected matrix rows and the
/// derived descriptor; everything else untouched.
pub open spec fn spec_select_record<V>(
    r: SpecRecord<V>,
    idxs: Seq<int>,
    info: SpecDataInfo,
) -> SpecRecord<V> {
    SpecRecord {
        data: select_rows(r.data, idxs),
        data_info: Some(spec_derived_info(info, idxs)),
        ..r
    }
}

/// A record with its matrix cleared; everything else untouched.
pub open spec fn spec_clear_data<V>(r: SpecRecord<V>) -> SpecRecord<V> {
    SpecRecord { data: Seq::empty(), ..r }
}

/// The records surviving the prune: those whose matrix kept a row, in
/// order.
pub open spec fn spec_prune<V>(rs: Seq<SpecRecord<V>>) -> Seq<SpecRecord<V>>
    decreases rs.len(),
{
    if rs.len() == 0 {
        Seq::empty()
    } else {
        let rest = spec_prune(rs.drop_first());
        if rs.first().data.len() > 0 {
            seq![rs.first()] + rest
        } else {
            rest
        }
    }
}

/// What channel selection does to a result set. No `data` parameter
/// (an empty list) clears every matrix; a list naming `all` passes
/// everything through; otherwise the requested channels are selected,
/// records left with an empty matrix are dropped, and a request naming
/// `except_data_values` keeps the derived descriptors but clears the
/// matrices afterwards.
pub open spec fn spec_slice_data<V>(
    data: Seq<Seq<char>>,
    info: SpecDataInfo,
    rs: Seq<SpecRecord<V>>,
) -> Seq<SpecRecord<V>> {
    if data.len() == 0 {
        rs.map_values(|r: SpecRecord<V>| spec_clear_data(r))
    } else if contains_name(data, "all"@) {
        rs
    } else {
        let idxs = spec_indexes(info.names, data);
        let pruned = spec_prune(
            rs.map_values(|r: SpecRecord<V>| spec_select_record(r, idxs, info)),
        );
        if contains_name(data, "except_data_values"@) {
            pruned.map_values(|r: SpecRecord<V>| spec_clear_data(r))
        } else {
            pruned
        }
    }
}

/// Every record surviving the prune kept at least one matrix row.
pub proof fn lemma_prune_nonempty<V>(rs: Seq<SpecRecord<V>>)
    ensures
        forall|k: int|
            0 <= k < spec_prune(rs).len() ==> #[trigger] spec_prune(rs)[k].data.len() > 0,
    decreases rs.len(),
{
    if rs.len() > 0 {
        lemma_prune_nonempty(rs.drop_first());
    }
}

/// What the name scan finds: the earliest position holding the name,
/// with no earlier position holding it.
pub proof fn lemma_name_pos(names: Seq<Seq<char>>, x: Seq<char>, i: int)
    requires
        0 <= i <= names.len(),
    ensures
        name_pos(names, x, i) matches Some(j) ==> i <= j < names.len() && names[j] == x,
        name_pos(names, x, i) is None ==> forall|k: int| i <= k < names.len() ==> names[k] != x,
    decreases names.len() - i,
{
    if 0 <= i < names.len() && names[i] != x {
        lemma_name_pos(names, x, i + 1);
    }
}

/// Every resolved index points into the baseline name list.
pub proof fn lemma_indexes_bounded(names: Seq<Seq<char>>, req: Seq<Seq<char>>)
    ensures
        forall|i: int|
            0 <= i < spec_indexes(names, req).len() ==> 0 <= #[trigger] spec_indexes(names, req)[i]
                < names.len(),
    decreases req.len(),
{
    if req.len() > 0 {
        lemma_indexes_bounded(names, req.drop_last());
        lemma_name_pos(names, req.last(), 0);
        let rest = spec_indexes(names, req.drop_last());
        assert forall|i: int|
            0 <= i < spec_indexes(names, req).len() implies 0 <= #[trigger] spec_indexes(
            names,
            req,
        )[i] < names.len() by {
            if i < rest.len() {
                assert(spec_indexes(names, req)[i] == rest[i]);
            }
        }
    }
}

/// A selection whose indices all point into the rows keeps one element
/// per index.
pub proof fn lemma_select_rows_len<T>(rows: Seq<T>, idxs: Seq<int>)
    requires
        forall|i: int| 0 <= i < idxs.len() ==> 0 <= #[trigger] idxs[i] < rows.len(),
    ensures
        select_rows(rows, idxs).len() == idxs.len(),
        forall|i: int|
            0 <= i < idxs.len() ==> #[trigger] select_rows(rows, idxs)[i] == rows[idxs[i]],
    decreases idxs.len(),
{
    if idxs.len() > 0 {
        assert(forall|i: int|
            0 <= i < idxs.drop_last().len() ==> #[trigger] idxs.drop_last()[i] == idxs[i]);
        lemma_select_rows_len(rows, idxs.drop_last());
    }
}

/// A sequence of machine indices, as mathematical integers.
pub open spec fn usize_ints(v: Seq<usize>) -> Seq<int> {
    v.map_values(|x: usize| x as int)
}

/// Whether the list holds a string reading exactly `target`.
#[verifier::loop_isolation(false)]
pub fn contains_string(v: &Vec<String>, target: &str) -> (r: bool)
    ensures
        r == contains_name(str_views(v@), target@),
{
    let t = target.to_owned();
    let mut i: usize = 0;
    while i < v.len()
        invariant
            i <= v@.len(),
            t@ == target@,
            forall|k: int| 0 <= k < i ==> #[trigger] v@[k]@ != target@,
        decreases v@.len() - i,
    {
        if v[i] == t {
            proof {
                assert(str_views(v@)[i as int] == v@[i as int]@);
            }
            return true;
        }
        i += 1;
    }
    proof {
        assert(forall|k: int|
            0 <= k < v@.len() ==> #[trigger] str_views(v@)[k] == v@[k]@);
    }
    false
}

/// Resolve the requested channel names to row indices against the
/// baseline names, in request order, dropping unknown names.
#[verifier::loop_isolation(false)]
pub fn resolve_channels(names: &Vec<String>, req: &Vec<String>) -> (r: Vec<usize>)
    ensures
        usize_ints(r@) == spec_indexes(str_views(names@), str_views(req@)),
        forall|i: int| 0 <= i < r@.len() ==> #[trigger] r@[i] < names@.len(),
{
    let ghost nsv = str_views(names@);
    let ghost rsv = str_views(req@);
    proof {
        assert(forall|k: int| 0 <= k < names@.len() ==> #[trigger] nsv[k] == names@[k]@);
        assert(forall|k: int| 0 <= k < req@.len() ==> #[trigger] rsv[k] == req@[k]@);
    }
    let mut out: Vec<usize> = Vec::new();
    let mut i: usize = 0;
    while i < req.len()
        invariant
            i <= req@.len(),
            usize_ints(out@) == spec_indexes(nsv, rsv.take(i as int)),
            forall|k: int| 0 <= k < out@.len() ==> #[trigger] out@[k] < names@.len(),
        decreases req@.len() - i,
    {
        let xs = req[i].clone();
        let mut j: usize = 0;
        let mut found = false;
        #[verifier::loop_isolation(true)]
        loop
            invariant_except_break
                !found,
                name_pos(nsv, xs@, 0) == name_pos(nsv, xs@, j as int),
            invariant
                nsv == str_views(names@),
                nsv.len() == names@.len(),
                forall|k: int| 0 <= k < names@.len() ==> #[trigger] nsv[k] == names@[k]@,
                j as int <= nsv.len(),
            ensures
                found ==> name_pos(nsv, xs@, 0) == Some(j as int) && (j as int) < nsv.len(),
                !found ==> name_pos(nsv, xs@, 0) is None,
            decreases nsv.len() - j,
        {
            if j >= names.len() {
                break ;
            }
            if names[j] == xs {
                proof {
                    assert(nsv[j as int] == names@[j as int]@);
                }
                found = true;
                break ;
            }
            j += 1;
        }
        proof {
            assert(rsv.take(i as int + 1).drop_last() =~= rsv.take(i as int));
            assert(rsv.take(i as int + 1).last() == xs@);
        }
        if found {
            let ghost oldout = out@;
            out.push(j);
            proof {
                assert(usize_ints(out@) =~= usize_ints(oldout).push(j as int));
            }
        }
        i += 1;
    }
    proof {
        assert(rsv.take(req@.len() as int) =~= rsv);
    }
    out
}

/// Copy the matrix rows at the existing positions of `idxs`, in order.
#[verifier::loop_isolation(false)]
fn select_matrix_rows<V: Copy>(rows: &Vec<Vec<V>>, idxs: &Vec<usize>) -> (r: Vec<Vec<V>>)
    ensures
        row_views(r@) == select_rows(row_views(rows@), usize_ints(idxs@)),
{
    let ghost rv = row_views(rows@);
    let ghost iv = usize_ints(idxs@);
    let mut out: Vec<Vec<V>> = Vec::new();
    let mut i: usize = 0;
    while i < idxs.len()
        invariant
            i <= idxs@.len(),
            row_views(out@) == select_rows(rv, iv.take(i as int)),
        decreases idxs@.len() - i,
    {
        let idx = idxs[i];
        proof {
            assert(iv.take(i as int + 1).drop_last() =~= iv.take(i as int));
            assert(iv.take(i as int + 1).last() == idx as int);
        }
        if idx < rows.len() {
            let row = &rows[idx];
            let mut newrow: Vec<V> = Vec::new();
            let mut j: usize = 0;
            while j < row.len()
                invariant
                    j <= row@.len(),
                    newrow@.len() == j,
                    forall|m: int| 0 <= m < j ==> #[trigger] newrow@[m] == row@[m],
                decreases row@.len() - j,
            {
                newrow.push(row[j]);
                j += 1;
            }
            proof {
                assert(newrow@ =~= rows@[idx as int]@);
            }
            let ghost oldout = out@;
            out.push(newrow);
            proof {
                assert(row_views(out@) =~= row_views(oldout).push(rv[idx as int]));
            }
        }
        i += 1;
    }
    proof {
        assert(iv.take(idxs@.len() as int) =~= iv);
    }
    out
}

/// Copy the strings of a list.
#[verifier::loop_isolation(false)]
pub(crate) fn clone_strings(v: &Vec<String>) -> (r: Vec<String>)
    ensures
        str_views(r@) == str_views(v@),
{
    let mut out: Vec<String> = Vec::new();
    let mut j: usize = 0;
    while j < v.len()
        invariant
            j <= v@.len(),
            out@.len() == j,
            forall|m: int| 0 <= m < j ==> #[trigger] out@[m]@ == v@[m]@,
        decreases v@.len() - j,
    {
        out.push(v[j].clone());
        j += 1;
    }
    proof {
        assert(str_views(out@) =~= str_views(v@));
    }
    out
}

/// Copy the strings at the existing positions of `idxs`, in order.
#[verifier::loop_isolation(false)]
fn select_strings(v: &Vec<String>, idxs: &Vec<usize>) -> (r: Vec<String>)
    ensures
        str_views(r@) == select_rows(str_views(v@), usize_ints(idxs@)),
{
    let ghost sv = str_views(v@);
    let ghost iv = usize_ints(idxs@);
    let mut out: Vec<String> = Vec::new();
    let mut i: usize = 0;
    while i < idxs.len()
        invariant
            i <= idxs@.len(),
            str_views(out@) == select_rows(sv, iv.take(i as int)),
        decreases idxs@.len() - i,
    {
        let idx = idxs[i];
        proof {
            assert(iv.take(i as int + 1).drop_last() =~= iv.take(i as int));
            assert(iv.take(i as int + 1).last() == idx as int);
        }
        if idx < v.len() {
            let ghost oldout = out@;
            out.push(v[idx].clone());
            proof {
                assert(str_views(out@) =~= str_views(oldout).push(sv[idx as int]));
            }
        }
        i += 1;
    }
    proof {
        assert(iv.take(idxs@.len() as int) =~= iv);
    }
    out
}

/// Copy the string lists at the existing positions of `idxs`, in order.
#[verifier::loop_isolation(false)]
fn select_string_vecs(v: &Vec<Vec<String>>, idxs: &Vec<usize>) -> (r: Vec<Vec<String>>)
    ensures
        str_views2(r@) == select_rows(str_views2(v@), usize_ints(idxs@)),
{
    let ghost sv = str_views2(v@);
    let ghost iv = usize_ints(idxs@);
    let mut out: Vec<Vec<String>> = Vec::new();
    let mut i: usize = 0;
    while i < idxs.len()
        invariant
            i <= idxs@.len(),
            str_views2(out@) == select_rows(sv, iv.take(i as int)),
        decreases idxs@.len() - i,
    {
        let idx = idxs[i];
        proof {
            assert(iv.take(i as int + 1).drop_last() =~= iv.take(i as int));
            assert(iv.take(i as int + 1).last() == idx as int);
        }
        if idx < v.len() {
            let copied = clone_strings(&v[idx]);
            let ghost oldout = out@;
            out.push(copied);
            proof {
                assert(str_views2(out@) =~= str_views2(oldout).push(sv[idx as int]));
            }
        }
        i += 1;
    }
    proof {
        assert(iv.take(idxs@.len() as int) =~= iv);
    }
    out
}

/// Clear every record's matrix, leaving everything else untouched.
#[verifier::loop_isolation(false)]
fn clear_matrices<V>(results: Vec<BsoseSchema<V>>) -> (r: Vec<BsoseSchema<V>>)
    ensures
        record_views(r@) == record_views(results@).map_values(
            |x: SpecRecord<V>| spec_clear_data(x),
        ),
{
    let ghost orig = results@;
    let mut results = results;
    let mut k: usize = 0;
    while k < results.len()
        invariant
            k <= orig.len(),
            results@.len() == orig.len(),
            forall|i: int| k <= i < orig.len() ==> #[trigger] results@[i] == orig[i],
            forall|i: int| 0 <= i < k ==> #[trigger] results@[i]@ == spec_clear_data(orig[i]@),
        decreases orig.len() - k,
    {
        let rec = &mut results[k];
        rec.data = Vec::new();
        proof {
            assert(row_views(results@[k as int].data@) =~= Seq::<Seq<V>>::empty());
            assert(results@[k as int]@ == spec_clear_data(orig[k as int]@));
        }
        k += 1;
    }
    proof {
        assert(record_views(results@) =~= record_views(orig).map_values(
            |x: SpecRecord<V>| spec_clear_data(x),
        ));
    }
    results
}

/// Apply channel selection to a result set against the baseline
/// descriptor: clear every matrix where no channels were requested,
/// pass everything through on `all`, and otherwise keep the requested
/// rows in request order, attach the derived descriptor, drop records
/// left with an empty matrix, and clear the kept matrices afterwards
/// where `except_data_values` was requested.
#[verifier::loop_isolation(false)]
pub fn slice_data<V: Copy>(
    data: Vec<String>,
    data_info: &DataInfo,
    results: Vec<BsoseSchema<V>>,
) -> (r: Vec<BsoseSchema<V>>)
    ensures
        record_views(r@) == spec_slice_data(
            str_views(data@),
            info_view(*data_info),
            record_views(results@),
        ),
{
    let ghost dv = str_views(data@);
    let ghost iview = info_view(*data_info);
    let ghost orig = record_views(results@);
    if data.len() == 0 {
        clear_matrices(results)
    } else if contains_string(&data, "all") {
        results
    } else {
        let indexes = resolve_channels(&data_info.0, &data);
        let ghost idxs = usize_ints(indexes@);
        let ghost sel = |x: SpecRecord<V>| spec_select_record(x, idxs, iview);
        let mut results = results;
        let mut out: Vec<BsoseSchema<V>> = Vec::new();
        proof {
            assert(record_views(out@) =~= Seq::<SpecRecord<V>>::empty());
            assert(record_views(out@) + spec_prune(record_views(results@).map_values(sel))
                =~= spec_prune(orig.map_values(sel)));
        }
        while results.len() > 0
            invariant
                record_views(out@) + spec_prune(record_views(results@).map_values(sel))
                    == spec_prune(orig.map_values(sel)),
            decreases results@.len(),
        {
            let ghost pre = results@;
            let mut rec = results.remove(0);
            proof {
                assert(results@ =~= pre.drop_first());
                assert(record_views(pre).map_values(sel).drop_first() =~= record_views(
                    results@,
                ).map_values(sel));
                assert(record_views(pre).map_values(sel).first() == sel(pre[0]@));
            }
            let filtered = select_matrix_rows(&rec.data, &indexes);
            let names2 = select_strings(&data_info.0, &indexes);
            let units2 = clone_strings(&data_info.1);
            let labels2 = select_string_vecs(&data_info.2, &indexes);
            let ghost recv = rec@;
            rec.data = filtered;
            rec.data_info = Some((names2, units2, labels2));
            proof {
                assert(rec@.data_info == Some(spec_derived_info(iview, idxs)));
                assert(rec@ == sel(recv));
            }
            if rec.data.len() > 0 {
                let ghost oldout = out@;
                out.push(rec);
                proof {
                    assert(record_views(out@) =~= record_views(oldout).push(sel(recv)));
                    assert(record_views(out@) + spec_prune(record_views(results@).map_values(sel))
                        =~= record_views(oldout) + (seq![sel(recv)] + spec_prune(
                        record_views(results@).map_values(sel),
                    )));
                }
            }
        }
        proof {
            assert(record_views(results@).map_values(sel) =~= Seq::<SpecRecord<V>>::empty());
            assert(record_views(out@) + spec_prune(record_views(results@).map_values(sel))
                =~= record_views(out@));
            assert(orig.map_values(sel) =~= orig.map_values(
                |x: SpecRecord<V>| spec_select_record(x, spec_indexes(iview.names, dv), iview),
            ));
        }
        if contains_string(&data, "except_data_values") {
            clear_matrices(out)
        } else {
            out
        }
    }
}

/// Reduce every record to its positional stub, in order.
#[verifier::loop_isolation(false)]
pub fn timeseries_stub<V: Copy>(results: Vec<BsoseSchema<V>>) -> (r: Vec<TimeseriesStub<V>>)
    ensures
        stub_views(r@) == record_views(results@).map_values(|x: SpecRecord<V>| spec_stub(x)),
{
    let mut out: Vec<TimeseriesStub<V>> = Vec::new();
    let mut k: usize = 0;
    while k < results.len()
        invariant
            k <= results@.len(),
            out@.len() == k,
            forall|i: int| 0 <= i < k ==> #[trigger] out@[i]@ == spec_stub(results@[i]@),
        decreases results@.len() - k,
    {
        let rec = &results[k];
        let stub = TimeseriesStub {
            _id: rec._id.clone(),
            longitude: rec.geolocation.coordinates[0],
            latitude: rec.geolocation.coordinates[1],
            level: rec.level,
            metadata: clone_strings(&rec.metadata),
        };
        out.push(stub);
        k += 1;
    }
    proof {
        assert(stub_views(out@) =~= record_views(results@).map_values(
            |x: SpecRecord<V>| spec_stub(x),
        ));
    }
    out
}

/// The position of the first comma at or after `i`, or the text length
/// where none follows.
pub open spec fn first_comma(s: Seq<char>, i: int) -> int
    recommends
        0 <= i <= s.len(),
    decreases s.len() - i,
{
    if 0 <= i < s.len() {
        if s[i] == ',' {
            i
        } else {
            first_comma(s, i + 1)
        }
    } else {
        i
    }
}

/// The comma scan stops at the first comma at or after `i`, or at the
/// end.
pub proof fn lemma_first_comma(s: Seq<char>, i: int)
    requires
        0 <= i <= s.len(),
    ensures
        i <= first_comma(s, i) <= s.len(),
        first_comma(s, i) < s.len() ==> s[first_comma(s, i)] == ',',
    decreases s.len() - i,
{
    if 0 <= i < s.len() && s[i] != ',' {
        lemma_first_comma(s, i + 1);
    }
}

/// The comma-separated segments of the text from position `i` on.
pub open spec fn spec_split_from(s: Seq<char>, i: int) -> Seq<Seq<char>>
    recommends
        0 <= i <= s.len(),
    decreases s.len() - i,
    when 0 <= i <= s.len()
    via spec_split_from_decreases
{
    let j = first_comma(s, i);
    if j < s.len() {
        seq![s.subrange(i, j)] + spec_split_from(s, j + 1)
    } else {
        seq![s.subrange(i, s.len() as int)]
    }
}

#[via_fn]
proof fn spec_split_from_decreases(s: Seq<char>, i: int) {
    if 0 <= i <= s.len() {
        lemma_first_comma(s, i);
    }
}

/// The comma-separated segments of a whole text. An empty text yields
/// one empty segment.
pub open spec fn spec_split_commas(s: Seq<char>) -> Seq<Seq<char>> {
    spec_split_from(s, 0)
}

/// Split the text at character position `i` on commas.
fn split_from(s: &str, n: usize, i: usize) -> (r: Vec<String>)
    requires
        n == s@.len(),
        i <= n,
    ensures
        str_views(r@) == spec_split_from(s@, i as int),
    decreases n - i,
{
    proof {
        lemma_first_comma(s@, i as int);
    }
    let mut j = i;
    #[verifier::loop_isolation(true)]
    loop
        invariant_except_break
            first_comma(s@, i as int) == first_comma(s@, j as int),
        invariant
            n == s@.len(),
            i as int <= j as int <= n,
        ensures
            i <= j,
            j as int <= n,
            j as int == first_comma(s@, i as int),
        decreases n - j,
    {
        if j >= n {
            break ;
        }
        if s.get_char(j) == ',' {
            break ;
        }
        j += 1;
    }
    let seg = s.substring_char(i, j).to_owned();
    if j < n {
        let mut rest = split_from(s, n, j + 1);
        let ghost restv = str_views(rest@);
        let mut out: Vec<String> = Vec::new();
        out.push(seg);
        out.append(&mut rest);
        proof {
            assert(str_views(out@) =~= seq![s@.subrange(i as int, j as int)] + restv);
        }
        out
    } else {
        let mut out: Vec<String> = Vec::new();
        out.push(seg);
        proof {
            assert(str_views(out@) =~= seq![s@.subrange(i as int, s@.len() as int)]);
        }
        out
    }
}

/// Split a request value on commas, as the service reads the `data`
/// parameter.
pub fn split_commas(s: &str) -> (r: Vec<String>)
    ensures
        str_views(r@) == spec_split_commas(s@),
{
    let n = s.unicode_len();
    split_from(s, n, 0)
}

/// The parse of an optional date parameter, in epoch milliseconds.
pub open spec fn opt_date_millis(p: Option<String>) -> Option<i64> {
    match p {
        Some(s) => datetime_parse_millis(s@),
        None => None,
    }
}

/// The requested channel names: the `data` parameter split on commas,
/// or nothing where the parameter is absent.
pub open spec fn spec_data_names(p: Option<String>) -> Seq<Seq<char>> {
    match p {
        Some(d) => spec_split_commas(d@),
        None => Seq::empty(),
    }
}

/// Whether a request can be projected against these records: where some
/// date bound parses, the resolved window must be in order, every
/// timestamp renderable as a label, and every matrix row at least as
/// long as the window's end.
pub open spec fn spec_transform_ok<V>(
    p: QueryParams,
    ts: Seq<i64>,
    rs: Seq<SpecRecord<V>>,
) -> bool {
    (opt_date_millis(p.start_date) is Some || opt_date_millis(p.end_date) is Some) ==> {
        let w = spec_window(ts, opt_date_millis(p.start_date), opt_date_millis(p.end_date));
        &&& w.0 <= w.1
        &&& (forall|j: int| 0 <= j < ts.len() ==> (ts[j] >= 0 || tmod(ts[j] as int, 1000) == 0))
        &&& (forall|k: int, m: int|
            0 <= k < rs.len() && 0 <= m < rs[k].data.len() ==> #[trigger] rs[k].data[m].len()
                >= w.1)
    }
}

/// The projected result set for a request: the matrices sliced to the
/// resolved window where some date bound parses, then channel selection
/// by the `data` parameter.
pub open spec fn spec_transform<V>(
    p: QueryParams,
    ts: Seq<i64>,
    info: SpecDataInfo,
    rs: Seq<SpecRecord<V>>,
) -> Seq<SpecRecord<V>> {
    let sd = opt_date_millis(p.start_date);
    let ed = opt_date_millis(p.end_date);
    let sliced = if sd is Some || ed is Some {
        let w = spec_window(ts, sd, ed);
        rs.map_values(
            |r: SpecRecord<V>| spec_slice_record(r, w.0, w.1, window_label_seq(ts, w.0, w.1)),
        )
    } else {
        rs
    };
    spec_slice_data(spec_data_names(p.data), info, sliced)
}

/// Apply the projection pipeline for a request: time slicing by the
/// parsed date bounds, then channel selection.
pub fn transform_timeseries<V: Copy>(
    params: &QueryParams,
    ts: &Vec<i64>,
    data_info: &DataInfo,
    results: Vec<BsoseSchema<V>>,
) -> (r: Vec<BsoseSchema<V>>)
    requires
        spec_transform_ok(*params, ts@, record_views(results@)),
    ensures
        record_views(r@) == spec_transform(
            *params,
            ts@,
            info_view(*data_info),
            record_views(results@),
        ),
{
    let ghost orig = record_views(results@);
    let start_date = match &params.start_date {
        Some(s) => string2bsondate(s.as_str()),
        None => None,
    };
    let end_date = match &params.end_date {
        Some(s) => string2bsondate(s.as_str()),
        None => None,
    };
    let mut r = results;
    if start_date.is_some() || end_date.is_some() {
        proof {
            let w = spec_window(ts@, start_date, end_date);
            assert(forall|k: int, m: int|
                0 <= k < r@.len() && 0 <= m < r@[k].data@.len() ==> #[trigger] r@[k].data@[m]@.len()
                    == record_views(r@)[k].data[m].len());
        }
        let ghost before = r@;
        r = slice_timerange(start_date, end_date, ts, r);
        proof {
            let w = spec_window(ts@, start_date, end_date);
            assert(record_views(r@) =~= record_views(before).map_values(
                |x: SpecRecord<V>| spec_slice_record(
                    x,
                    w.0,
                    w.1,
                    window_label_seq(ts@, w.0, w.1),
                ),
            ));
        }
    }
    let data: Vec<String> = match &params.data {
        Some(d) => split_commas(d.as_str()),
        None => Vec::new(),
    };
    proof {
        assert(str_views(data@) =~= spec_data_names(params.data));
    }
    slice_data(data, data_info, r)
}

/// Whether a timestamp can be handed to the label renderer: any
/// non-negative one, or a negative one on a whole second.
fn whole_second_ok(t: i64) -> (r: bool)
    ensures
        r == (t >= 0 || tmod(t as int, 1000) == 0),
{
    if t >= 0 {
        true
    } else if t == i64::MIN {
        proof {
            assert(tmod(t as int, 1000) == -808);
        }
        false
    } else {
        (((-t) as u64) % 1000) == 0
    }
}

/// Run the whole projection for a request, checking first that it can
/// be projected against these records: where some date bound parses,
/// the resolved window must be in order, every timestamp renderable as
/// a label, and every matrix row at least as long as the window's end.
/// Returns `None` exactly where a check fails.
#[verifier::loop_isolation(false)]
pub fn project<V: Copy>(
    params: &QueryParams,
    ts: &Vec<i64>,
    data_info: &DataInfo,
    results: Vec<BsoseSchema<V>>,
) -> (r: Option<Vec<BsoseSchema<V>>>)
    ensures
        match r {
            Some(rs) => spec_transform_ok(*params, ts@, record_views(results@)) && record_views(
                rs@,
            ) == spec_transform(*params, ts@, info_view(*data_info), record_views(results@)),
            None => !spec_transform_ok(*params, ts@, record_views(results@)),
        },
{
    let start_date = match &params.start_date {
        Some(s) => string2bsondate(s.as_str()),
        None => None,
    };
    let end_date = match &params.end_date {
        Some(s) => string2bsondate(s.as_str()),
        None => None,
    };
    if start_date.is_some() || end_date.is_some() {
        let w = resolve_window(ts, start_date, end_date);
        if w.0 > w.1 {
            return None;
        }
        let mut j: usize = 0;
        while j < ts.len()
            invariant
                j <= ts@.len(),
                forall|m: int| 0 <= m < j ==> (ts@[m] >= 0 || tmod(ts@[m] as int, 1000) == 0),
            decreases ts@.len() - j,
        {
            if !whole_second_ok(ts[j]) {
                return None;
            }
            j += 1;
        }
        let mut k: usize = 0;
        while k < results.len()
            invariant
                k <= results@.len(),
                forall|a: int, m: int|
                    0 <= a < k && 0 <= m < results@[a].data@.len()
                        ==> #[trigger] results@[a].data@[m]@.len() >= w.1,
            decreases results@.len() - k,
        {
            let mut m: usize = 0;
            while m < results[k].data.len()
                invariant
                    k < results@.len(),
                    m <= results@[k as int].data@.len(),
                    forall|i: int|
                        0 <= i < m ==> #[trigger] results@[k as int].data@[i]@.len() >= w.1,
                decreases results@[k as int].data@.len() - m,
            {
                if results[k].data[m].len() < w.1 {
                    proof {
                        assert(record_views(results@)[k as int].data[m as int].len() < w.1);
                    }
                    return None;
                }
                m += 1;
            }
            k += 1;
        }
        proof {
            assert(forall|a: int, m: int|
                0 <= a < record_views(results@).len() && 0 <= m < record_views(results@)[a].data.len()
                    ==> #[trigger] record_views(results@)[a].data[m].len() >= w.1) by {
                assert(forall|a: int, m: int|
                    0 <= a < results@.len() && 0 <= m < results@[a].data@.len()
                        ==> #[trigger] results@[a].data@[m]@.len() >= w.1);
                assert(forall|a: int|
                    0 <= a < results@.len() ==> #[trigger] record_views(results@)[a]
                        == results@[a]@);
            }
        }
    }
    Some(transform_timeseries(params, ts, data_info, results))
}

/// A request naming `all` passes the whole result set through
/// unchanged.
pub proof fn lemma_data_all_noop<V>(
    data: Seq<Seq<char>>,
    info: SpecDataInfo,
    rs: Seq<SpecRecord<V>>,
)
    requires
        data.len() > 0,
        contains_name(data, "all"@),
    ensures
        spec_slice_data(data, info, rs) == rs,
{
}

/// With no channels requested, every record survives with an empty
/// matrix and everything else untouched.
pub proof fn lemma_data_absent_clears<V>(info: SpecDataInfo, rs: Seq<SpecRecord<V>>)
    ensures
        spec_slice_data(Seq::<Seq<char>>::empty(), info, rs).len() == rs.len(),
        forall|k: int|
            0 <= k < rs.len() ==> #[trigger] spec_slice_data(Seq::<Seq<char>>::empty(), info, rs)[k]
                == spec_clear_data(rs[k]),
{
}

/// Every requested name that the baseline knows resolves, in request
/// order, to the position of that name.
pub proof fn lemma_indexes_complete(names: Seq<Seq<char>>, req: Seq<Seq<char>>)
    requires
        forall|i: int| 0 <= i < req.len() ==> contains_name(names, #[trigger] req[i]),
    ensures
        spec_indexes(names, req).len() == req.len(),
        forall|i: int|
            0 <= i < req.len() ==> names[#[trigger] spec_indexes(names, req)[i]] == req[i],
    decreases req.len(),
{
    if req.len() > 0 {
        assert(forall|i: int|
            0 <= i < req.drop_last().len() ==> #[trigger] req.drop_last()[i] == req[i]);
        lemma_indexes_complete(names, req.drop_last());
        lemma_name_pos(names, req.last(), 0);
        if name_pos(names, req.last(), 0) is None {
            assert(contains_name(names, req[req.len() - 1]));
            assert(false);
        }
        let rest = spec_indexes(names, req.drop_last());
        assert(forall|i: int|
            0 <= i < rest.len() ==> #[trigger] spec_indexes(names, req)[i] == rest[i]);
    }
}

/// A request of known names selects exactly one matrix row per
/// requested name, in request order, and derives a descriptor naming
/// exactly the kept rows.
pub proof fn lemma_known_names_select<V>(
    data: Seq<Seq<char>>,
    info: SpecDataInfo,
    r: SpecRecord<V>,
)
    requires
        forall|i: int| 0 <= i < data.len() ==> contains_name(info.names, #[trigger] data[i]),
        r.data.len() == info.names.len(),
    ensures
        ({
            let idxs = spec_indexes(info.names, data);
            let sel = spec_select_record(r, idxs, info);
            &&& idxs.len() == data.len()
            &&& sel.data.len() == data.len()
            &&& (forall|i: int| 0 <= i < data.len() ==> #[trigger] sel.data[i] == r.data[idxs[i]])
            &&& sel.data_info == Some(spec_derived_info(info, idxs))
            &&& spec_derived_info(info, idxs).names.len() == sel.data.len()
            &&& (forall|i: int|
                0 <= i < data.len() ==> #[trigger] spec_derived_info(info, idxs).names[i]
                    == data[i])
        }),
{
    let idxs = spec_indexes(info.names, data);
    lemma_indexes_complete(info.names, data);
    lemma_indexes_bounded(info.names, data);
    lemma_select_rows_len(r.data, idxs);
    lemma_select_rows_len(info.names, idxs);
}

/// After selection by a specific name list (no `all`, no
/// `except_data_values`), every surviving record keeps a non-empty
/// matrix.
pub proof fn lemma_selected_nonempty<V>(
    data: Seq<Seq<char>>,
    info: SpecDataInfo,
    rs: Seq<SpecRecord<V>>,
)
    requires
        data.len() > 0,
        !contains_name(data, "all"@),
        !contains_name(data, "except_data_values"@),
    ensures
        forall|k: int|
            0 <= k < spec_slice_data(data, info, rs).len() ==> #[trigger] spec_slice_data(
                data,
                info,
                rs,
            )[k].data.len() > 0,
{
    let idxs = spec_indexes(info.names, data);
    lemma_prune_nonempty(rs.map_values(|x: SpecRecord<V>| spec_select_record(x, idxs, info)));
}

} // verus!

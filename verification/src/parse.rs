//! The grammar of coordinate-bearing request values: JSON-style arrays of
//! decimal numbers (`[170,-10.5]`) and arrays of such arrays
//! (`[[170,-10],[-170,10]]`), plus bare decimal scalars.
//!
//! Numbers are read into micro-units: one millionth of the written unit,
//! as a signed 64-bit integer. A number is an optional minus sign, one or
//! more digits, and an optional fraction of one or more digits; fraction
//! digits beyond the sixth are truncated. A whole part above
//! [`WHOLE_CAP`] is rejected so that every accepted value fits the
//! carrier type with room to negate.

use vstd::prelude::*;
use vstd::string::StrSliceExecFns;

verus! {

/// Largest accepted whole part of a number, in whole units.
pub const WHOLE_CAP: i64 = 1_000_000_000_000;

/// One whole unit, in micro-units.
pub const MICRO: i64 = 1_000_000;

/// Largest magnitude an accepted number can reach, in micro-units.
pub const VALUE_CAP: i64 = 1_000_000_000_000_999_999;

/// Whether a character is a decimal digit.
pub open spec fn is_dec_digit(c: char) -> bool {
    48 <= c as int <= 57
}

/// The numeric value of a decimal digit.
pub open spec fn digit_val(c: char) -> int {
    c as int - 48
}

/// Consume decimal digits from position `i`, folding them onto `acc`;
/// yields the folded value and the position after the last digit.
pub open spec fn scan_int(s: Seq<char>, i: int, acc: int) -> (int, int)
    recommends
        0 <= i <= s.len(),
    decreases s.len() - i,
{
    if 0 <= i < s.len() && is_dec_digit(s[i]) {
        scan_int(s, i + 1, acc * 10 + digit_val(s[i]))
    } else {
        (acc, i)
    }
}

/// Consume fraction digits from position `i`: the first six beyond those
/// already `seen` fold onto `acc`, the rest only advance. Yields the
/// folded fraction, the total count of fraction digits, and the position
/// after the last digit.
pub open spec fn scan_frac(s: Seq<char>, i: int, acc: int, seen: int) -> (int, int, int)
    recommends
        0 <= i <= s.len(),
    decreases s.len() - i,
{
    if 0 <= i < s.len() && is_dec_digit(s[i]) {
        if seen < 6 {
            scan_frac(s, i + 1, acc * 10 + digit_val(s[i]), seen + 1)
        } else {
            scan_frac(s, i + 1, acc, seen + 1)
        }
    } else {
        (acc, seen, i)
    }
}

/// The factor that pads a fraction of `seen` digits out to micro-units.
pub open spec fn frac_scale(seen: int) -> int {
    if seen <= 0 {
        1_000_000
    } else if seen == 1 {
        100_000
    } else if seen == 2 {
        10_000
    } else if seen == 3 {
        1_000
    } else if seen == 4 {
        100
    } else if seen == 5 {
        10
    } else {
        1
    }
}

/// An exclusive upper bound on a fraction folded from `seen` digits.
pub open spec fn frac_cap(seen: int) -> int {
    if seen <= 0 {
        1
    } else if seen == 1 {
        10
    } else if seen == 2 {
        100
    } else if seen == 3 {
        1_000
    } else if seen == 4 {
        10_000
    } else if seen == 5 {
        100_000
    } else {
        1_000_000
    }
}

/// Parse one number at position `i`: optional minus sign, digits, and an
/// optional `.`-led fraction. Yields the value in micro-units and the
/// position after the number, or `None` where the text does not follow
/// the grammar or the whole part is over [`WHOLE_CAP`].
pub open spec fn parse_number(s: Seq<char>, i: int) -> Option<(int, int)>
    recommends
        0 <= i <= s.len(),
{
    let neg = i < s.len() && s[i] == '-';
    let j = if neg {
        i + 1
    } else {
        i
    };
    if j < s.len() && is_dec_digit(s[j]) {
        let (whole, k) = scan_int(s, j, 0);
        if whole > WHOLE_CAP as int {
            None
        } else if k < s.len() && s[k] == '.' {
            if k + 1 < s.len() && is_dec_digit(s[k + 1]) {
                let (fr, seen, m) = scan_frac(s, k + 1, 0, 0);
                let v = whole * MICRO as int + fr * frac_scale(seen);
                Some(
                    (
                        if neg {
                            -v
                        } else {
                            v
                        },
                        m,
                    ),
                )
            } else {
                None
            }
        } else {
            let v = whole * MICRO as int;
            Some(
                (
                    if neg {
                        -v
                    } else {
                        v
                    },
                    k,
                ),
            )
        }
    } else {
        None
    }
}

/// Folding digits never moves the position backwards or past the end,
/// and never shrinks a non-negative accumulator.
pub proof fn lemma_scan_int_bounds(s: Seq<char>, i: int, acc: int)
    requires
        0 <= i <= s.len(),
    ensures
        i <= scan_int(s, i, acc).1 <= s.len(),
        acc >= 0 ==> scan_int(s, i, acc).0 >= acc,
        i < s.len() && is_dec_digit(s[i]) ==> scan_int(s, i, acc).1 >= i + 1,
    decreases s.len() - i,
{
    if i < s.len() && is_dec_digit(s[i]) {
        lemma_scan_int_bounds(s, i + 1, acc * 10 + digit_val(s[i]));
    }
}

/// Scanning a fraction keeps the folded value under its digit-count cap
/// and never moves the position backwards or past the end.
pub proof fn lemma_scan_frac_bounds(s: Seq<char>, i: int, acc: int, seen: int)
    requires
        0 <= i <= s.len(),
        0 <= seen,
        0 <= acc < frac_cap(seen),
    ensures
        i <= scan_frac(s, i, acc, seen).2 <= s.len(),
        seen <= scan_frac(s, i, acc, seen).1,
        0 <= scan_frac(s, i, acc, seen).0 < frac_cap(scan_frac(s, i, acc, seen).1),
        scan_frac(s, i, acc, seen).0 < 1_000_000,
    decreases s.len() - i,
{
    if i < s.len() && is_dec_digit(s[i]) {
        if seen < 6 {
            lemma_scan_frac_bounds(s, i + 1, acc * 10 + digit_val(s[i]), seen + 1);
        } else {
            lemma_scan_frac_bounds(s, i + 1, acc, seen + 1);
        }
    }
}

/// The padding factor complements the digit-count cap: together they
/// always span exactly one whole unit.
pub proof fn lemma_frac_product(seen: int)
    ensures
        frac_cap(seen) * frac_scale(seen) == 1_000_000,
        frac_scale(seen) >= 1,
{
    if seen <= 0 {
        assert(frac_cap(seen) * frac_scale(seen) == 1_000_000);
    } else if seen == 1 {
        assert(frac_cap(seen) * frac_scale(seen) == 1_000_000);
    } else if seen == 2 {
        assert(frac_cap(seen) * frac_scale(seen) == 1_000_000);
    } else if seen == 3 {
        assert(frac_cap(seen) * frac_scale(seen) == 1_000_000);
    } else if seen == 4 {
        assert(frac_cap(seen) * frac_scale(seen) == 1_000_000);
    } else if seen == 5 {
        assert(frac_cap(seen) * frac_scale(seen) == 1_000_000);
    } else {
        assert(frac_cap(seen) * frac_scale(seen) == 1_000_000);
    }
}

/// A parsed number consumes at least one character, stops within the
/// text, and its value fits within [`VALUE_CAP`] micro-units.
pub proof fn lemma_parse_number_bounds(s: Seq<char>, i: int)
    requires
        0 <= i <= s.len(),
    ensures
        parse_number(s, i) matches Some(r) ==> i + 1 <= r.1 <= s.len(),
        parse_number(s, i) matches Some(r) ==> -(VALUE_CAP as int) <= r.0 <= VALUE_CAP as int,
{
    let neg = i < s.len() && s[i] == '-';
    let j = if neg {
        i + 1
    } else {
        i
    };
    if j < s.len() && is_dec_digit(s[j]) {
        lemma_scan_int_bounds(s, j, 0);
        let (whole, k) = scan_int(s, j, 0);
        if whole <= WHOLE_CAP as int {
            if k < s.len() && s[k] == '.' {
                if k + 1 < s.len() && is_dec_digit(s[k + 1]) {
                    lemma_scan_frac_bounds(s, k + 1, 0, 0);
                    let (fr, seen, m) = scan_frac(s, k + 1, 0, 0);
                    lemma_frac_product(seen);
                    assert(0 <= fr * frac_scale(seen) <= 999_999) by (nonlinear_arith)
                        requires
                            0 <= fr < 1_000_000,
                            0 <= fr < frac_cap(seen),
                            0 <= seen,
                            frac_cap(seen) * frac_scale(seen) <= 1_000_000,
                            frac_scale(seen) >= 1,
                    ;
                    assert(0 <= whole * MICRO as int <= WHOLE_CAP as int * MICRO as int)
                        by (nonlinear_arith)
                        requires
                            0 <= whole <= WHOLE_CAP as int,
                    ;
                }
            } else {
                assert(0 <= whole * MICRO as int <= WHOLE_CAP as int * MICRO as int)
                    by (nonlinear_arith)
                    requires
                        0 <= whole <= WHOLE_CAP as int,
                ;
            }
        }
    }
}

/// Parse the elements of a number list after its opening bracket:
/// numbers separated by commas, closed by `]`. `acc` carries the values
/// already read; yields all values and the position after the `]`.
pub open spec fn parse_num_list_rest(s: Seq<char>, i: int, acc: Seq<int>) -> Option<
    (Seq<int>, int),
>
    recommends
        0 <= i <= s.len(),
    decreases s.len() - i,
    when 0 <= i <= s.len()
    via parse_num_list_rest_decreases
{
    match parse_number(s, i) {
        Some((v, j)) => {
            if j < s.len() && s[j] == ',' {
                parse_num_list_rest(s, j + 1, acc.push(v))
            } else if j < s.len() && s[j] == ']' {
                Some((acc.push(v), j + 1))
            } else {
                None
            }
        },
        None => None,
    }
}

#[via_fn]
proof fn parse_num_list_rest_decreases(s: Seq<char>, i: int, acc: Seq<int>) {
    if 0 <= i <= s.len() {
        lemma_parse_number_bounds(s, i);
    }
}

/// Parse a number list at position `i`: `[`, then nothing or
/// comma-separated numbers, then `]`. Yields the values in written order
/// and the position after the list.
pub open spec fn parse_num_list(s: Seq<char>, i: int) -> Option<(Seq<int>, int)>
    recommends
        0 <= i <= s.len(),
{
    if i < s.len() && s[i] == '[' {
        if i + 1 < s.len() && s[i + 1] == ']' {
            Some((Seq::empty(), i + 2))
        } else {
            parse_num_list_rest(s, i + 1, Seq::empty())
        }
    } else {
        None
    }
}

/// The elements of a parsed number list extend the accumulator with
/// values within [`VALUE_CAP`], and the parse stops within the text.
pub proof fn lemma_parse_num_list_rest_bounds(s: Seq<char>, i: int, acc: Seq<int>)
    requires
        0 <= i <= s.len(),
    ensures
        parse_num_list_rest(s, i, acc) matches Some(r) ==> {
            &&& i + 2 <= r.1 <= s.len()
            &&& acc.len() < r.0.len()
            &&& (forall|k: int| 0 <= k < acc.len() ==> #[trigger] r.0[k] == acc[k])
            &&& (forall|k: int|
                acc.len() <= k < r.0.len() ==> -(VALUE_CAP as int) <= #[trigger] r.0[k]
                    <= VALUE_CAP as int)
        },
    decreases s.len() - i,
{
    lemma_parse_number_bounds(s, i);
    match parse_number(s, i) {
        Some((v, j)) => {
            if j < s.len() && s[j] == ',' {
                lemma_parse_num_list_rest_bounds(s, j + 1, acc.push(v));
            }
        },
        None => {},
    }
}

/// A parsed number list consumes at least two characters, stops within
/// the text, and all its values lie within [`VALUE_CAP`].
pub proof fn lemma_parse_num_list_bounds(s: Seq<char>, i: int)
    requires
        0 <= i <= s.len(),
    ensures
        parse_num_list(s, i) matches Some(r) ==> {
            &&& i + 2 <= r.1 <= s.len()
            &&& (forall|k: int|
                0 <= k < r.0.len() ==> -(VALUE_CAP as int) <= #[trigger] r.0[k]
                    <= VALUE_CAP as int)
        },
{
    if i < s.len() && s[i] == '[' {
        if !(i + 1 < s.len() && s[i + 1] == ']') {
            lemma_parse_num_list_rest_bounds(s, i + 1, Seq::empty());
        }
    }
}

/// Parse the elements of a pair list after its opening bracket: number
/// lists separated by commas, closed by `]`.
pub open spec fn parse_pair_list_rest(s: Seq<char>, i: int, acc: Seq<Seq<int>>) -> Option<
    (Seq<Seq<int>>, int),
>
    recommends
        0 <= i <= s.len(),
    decreases s.len() - i,
    when 0 <= i <= s.len()
    via parse_pair_list_rest_decreases
{
    match parse_num_list(s, i) {
        Some((p, j)) => {
            if j < s.len() && s[j] == ',' {
                parse_pair_list_rest(s, j + 1, acc.push(p))
            } else if j < s.len() && s[j] == ']' {
                Some((acc.push(p), j + 1))
            } else {
                None
            }
        },
        None => None,
    }
}

#[via_fn]
proof fn parse_pair_list_rest_decreases(s: Seq<char>, i: int, acc: Seq<Seq<int>>) {
    if 0 <= i <= s.len() {
        lemma_parse_num_list_bounds(s, i);
    }
}

/// Parse a pair list at position `i`: `[`, then nothing or
/// comma-separated number lists, then `]`.
pub open spec fn parse_pair_list(s: Seq<char>, i: int) -> Option<(Seq<Seq<int>>, int)>
    recommends
        0 <= i <= s.len(),
{
    if i < s.len() && s[i] == '[' {
        if i + 1 < s.len() && s[i + 1] == ']' {
            Some((Seq::empty(), i + 2))
        } else {
            parse_pair_list_rest(s, i + 1, Seq::empty())
        }
    } else {
        None
    }
}

/// The elements of a parsed pair list extend the accumulator with lists
/// whose values lie within [`VALUE_CAP`], and the parse stops within the
/// text.
pub proof fn lemma_parse_pair_list_rest_bounds(s: Seq<char>, i: int, acc: Seq<Seq<int>>)
    requires
        0 <= i <= s.len(),
    ensures
        parse_pair_list_rest(s, i, acc) matches Some(r) ==> {
            &&& i + 3 <= r.1 <= s.len()
            &&& acc.len() < r.0.len()
            &&& (forall|k: int| 0 <= k < acc.len() ==> #[trigger] r.0[k] == acc[k])
            &&& (forall|k: int, m: int|
                acc.len() <= k < r.0.len() && 0 <= m < r.0[k].len() ==> -(VALUE_CAP as int)
                    <= #[trigger] r.0[k][m] <= VALUE_CAP as int)
        },
    decreases s.len() - i,
{
    lemma_parse_num_list_bounds(s, i);
    match parse_num_list(s, i) {
        Some((p, j)) => {
            if j < s.len() && s[j] == ',' {
                lemma_parse_pair_list_rest_bounds(s, j + 1, acc.push(p));
            }
        },
        None => {},
    }
}

/// A parsed pair list stops within the text and every value in every of
/// its lists lies within [`VALUE_CAP`].
pub proof fn lemma_parse_pair_list_bounds(s: Seq<char>, i: int)
    requires
        0 <= i <= s.len(),
    ensures
        parse_pair_list(s, i) matches Some(r) ==> {
            &&& i + 2 <= r.1 <= s.len()
            &&& (forall|k: int, m: int|
                0 <= k < r.0.len() && 0 <= m < r.0[k].len() ==> -(VALUE_CAP as int)
                    <= #[trigger] r.0[k][m] <= VALUE_CAP as int)
        },
{
    if i < s.len() && s[i] == '[' {
        if !(i + 1 < s.len() && s[i + 1] == ']') {
            lemma_parse_pair_list_rest_bounds(s, i + 1, Seq::empty());
        }
    }
}

/// What a whole request value holds as a flat number list, or `None`
/// where it is not one single well-formed list.
pub open spec fn spec_parse_numbers(s: Seq<char>) -> Option<Seq<int>> {
    match parse_num_list(s, 0) {
        Some((vs, n)) => if n == s.len() {
            Some(vs)
        } else {
            None
        },
        None => None,
    }
}

/// What a whole request value holds as a list of coordinate lists, or
/// `None` where it is not one single well-formed list of lists.
pub open spec fn spec_parse_pairs(s: Seq<char>) -> Option<Seq<Seq<int>>> {
    match parse_pair_list(s, 0) {
        Some((ps, n)) => if n == s.len() {
            Some(ps)
        } else {
            None
        },
        None => None,
    }
}

/// What a whole request value holds as one bare number, or `None` where
/// it is not one single well-formed number.
pub open spec fn spec_parse_scalar(s: Seq<char>) -> Option<int> {
    match parse_number(s, 0) {
        Some((v, n)) => if n == s.len() {
            Some(v)
        } else {
            None
        },
        None => None,
    }
}

/// A sequence of machine integers, as mathematical integers.
pub open spec fn int_seq(v: Seq<i64>) -> Seq<int> {
    v.map_values(|x: i64| x as int)
}

/// A sequence of machine-integer vectors, as sequences of mathematical
/// integers.
pub open spec fn int_seq2(v: Seq<Vec<i64>>) -> Seq<Seq<int>> {
    v.map_values(|x: Vec<i64>| int_seq(x@))
}

/// How a mapped integer sequence relates to its machine-integer source:
/// same length, same values.
pub proof fn lemma_int_seq_index(v: Seq<i64>)
    ensures
        int_seq(v).len() == v.len(),
        forall|k: int| 0 <= k < v.len() ==> #[trigger] int_seq(v)[k] == v[k] as int,
{
}

/// How a mapped pair list relates to its machine-integer source: same
/// length, elementwise the mapped inner lists.
pub proof fn lemma_int_seq2_len(v: Seq<Vec<i64>>)
    ensures
        int_seq2(v).len() == v.len(),
        forall|k: int| 0 <= k < v.len() ==> #[trigger] int_seq2(v)[k] == int_seq(v[k]@),
        forall|k: int| 0 <= k < v.len() ==> #[trigger] int_seq2(v)[k].len() == v[k]@.len(),
{
    assert(forall|k: int|
        0 <= k < v.len() ==> #[trigger] int_seq2(v)[k].len() == v[k]@.len()) by {
        assert(forall|k: int| 0 <= k < v.len() ==> #[trigger] int_seq2(v)[k] == int_seq(v[k]@));
        assert(forall|k: int| 0 <= k < v.len() ==> #[trigger] int_seq(v[k]@).len() == v[k]@.len());
    }
}

/// Machine-integer sequences with the same mathematical image hold the
/// same values.
pub proof fn lemma_int_seq_injective(a: Seq<i64>, b: Seq<i64>)
    ensures
        (int_seq(a) == int_seq(b)) <==> (a == b),
{
    lemma_int_seq_index(a);
    lemma_int_seq_index(b);
    if int_seq(a) == int_seq(b) {
        assert(a.len() == b.len());
        assert forall|m: int| 0 <= m < a.len() implies a[m] == b[m] by {
            assert(int_seq(a)[m] == int_seq(b)[m]);
            assert(int_seq(a)[m] == a[m] as int);
            assert(int_seq(b)[m] == b[m] as int);
        }
        assert(a =~= b);
    }
}

/// Whether a character is a decimal digit.
fn dec_digit(c: char) -> (r: bool)
    ensures
        r == is_dec_digit(c),
{
    (c as u32) >= 48 && (c as u32) <= 57
}

/// Read one number starting at character position `i`.
fn parse_number_at(s: &str, n: usize, i: usize) -> (r: Option<(i64, usize)>)
    requires
        n == s@.len(),
        i <= n,
    ensures
        match r {
            Some((v, j)) => parse_number(s@, i as int) == Some((v as int, j as int)) && i < j
                <= n,
            None => parse_number(s@, i as int) is None,
        },
{
    proof {
        lemma_parse_number_bounds(s@, i as int);
    }
    let mut j = i;
    let mut neg = false;
    if j < n && s.get_char(j) == '-' {
        neg = true;
        j = j + 1;
    }
    if !(j < n) {
        return None;
    }
    if !dec_digit(s.get_char(j)) {
        return None;
    }
    let ghost j0 = j as int;
    let mut acc: i64 = 0;
    let ghost mut acc_g: int = 0int;
    let mut toobig = false;
    loop
        invariant
            n == s@.len(),
            j0 <= j as int <= n,
            0 <= acc_g,
            scan_int(s@, j0, 0) == scan_int(s@, j as int, acc_g),
            !toobig ==> acc == acc_g && 0 <= acc <= WHOLE_CAP,
            toobig ==> acc_g > WHOLE_CAP,
        ensures
            j0 <= j as int <= n,
            scan_int(s@, j0, 0) == (acc_g, j as int),
            !toobig ==> acc == acc_g && 0 <= acc <= WHOLE_CAP,
            toobig ==> acc_g > WHOLE_CAP,
        decreases n - j,
    {
        if j >= n {
            break ;
        }
        let c = s.get_char(j);
        if !dec_digit(c) {
            break ;
        }
        let d: i64 = ((c as u32) - 48) as i64;
        if !toobig {
            let na = acc * 10 + d;
            if na > WHOLE_CAP {
                toobig = true;
            } else {
                acc = na;
            }
        }
        proof {
            acc_g = acc_g * 10 + (d as int);
        }
        j = j + 1;
    }
    if toobig {
        return None;
    }
    let value: i64;
    let endpos: usize;
    if j < n && s.get_char(j) == '.' {
        if j + 1 < n && dec_digit(s.get_char(j + 1)) {
            let ghost f0 = (j + 1) as int;
            let mut fj = j + 1;
            let mut fa: i64 = 0;
            let mut seen: usize = 0;
            loop
                invariant
                    n == s@.len(),
                    1 <= f0 <= fj as int <= n,
                    seen as int <= fj as int - f0,
                    scan_frac(s@, f0, 0, 0) == scan_frac(s@, fj as int, fa as int, seen as int),
                    0 <= fa < frac_cap(seen as int),
                    fa < 1_000_000,
                ensures
                    f0 <= fj as int <= n,
                    scan_frac(s@, f0, 0, 0) == (fa as int, seen as int, fj as int),
                    0 <= fa < frac_cap(seen as int),
                    fa < 1_000_000,
                decreases n - fj,
            {
                if fj >= n {
                    break ;
                }
                let c = s.get_char(fj);
                if !dec_digit(c) {
                    break ;
                }
                if seen < 6 {
                    fa = fa * 10 + (((c as u32) - 48) as i64);
                }
                seen = seen + 1;
                fj = fj + 1;
            }
            let scale: i64 = if seen >= 6 {
                1
            } else if seen == 5 {
                10
            } else if seen == 4 {
                100
            } else if seen == 3 {
                1_000
            } else if seen == 2 {
                10_000
            } else if seen == 1 {
                100_000
            } else {
                1_000_000
            };
            proof {
                lemma_frac_product(seen as int);
                assert(scale == frac_scale(seen as int));
                assert(fa * scale <= 1_000_000 - scale && 0 <= fa * scale) by (nonlinear_arith)
                    requires
                        0 <= fa,
                        fa < frac_cap(seen as int),
                        scale == frac_scale(seen as int),
                        frac_cap(seen as int) * frac_scale(seen as int) == 1_000_000,
                        scale >= 1,
                ;
            }
            value = acc * MICRO + fa * scale;
            endpos = fj;
        } else {
            return None;
        }
    } else {
        value = acc * MICRO;
        endpos = j;
    }
    let result = if neg {
        -value
    } else {
        value
    };
    Some((result, endpos))
}

/// Read one number list starting at character position `i`.
fn parse_num_list_at(s: &str, n: usize, i: usize) -> (r: Option<(Vec<i64>, usize)>)
    requires
        n == s@.len(),
        i <= n,
    ensures
        match r {
            Some((vs, j)) => parse_num_list(s@, i as int) == Some((int_seq(vs@), j as int)) && i
                < j <= n,
            None => parse_num_list(s@, i as int) is None,
        },
{
    proof {
        lemma_parse_num_list_bounds(s@, i as int);
    }
    if !(i < n) {
        return None;
    }
    if s.get_char(i) != '[' {
        return None;
    }
    if i + 1 < n && s.get_char(i + 1) == ']' {
        let empty: Vec<i64> = Vec::new();
        proof {
            assert(int_seq(empty@) =~= Seq::<int>::empty());
        }
        return Some((empty, i + 2));
    }
    let mut out: Vec<i64> = Vec::new();
    let mut j = i + 1;
    proof {
        assert(int_seq(out@) =~= Seq::<int>::empty());
    }
    loop
        invariant
            n == s@.len(),
            i + 1 <= j as int <= n,
            parse_num_list(s@, i as int) == parse_num_list_rest(s@, j as int, int_seq(out@)),
        decreases n - j,
    {
        match parse_number_at(s, n, j) {
            None => {
                return None;
            },
            Some((v, k)) => {
                if k < n {
                    let c = s.get_char(k);
                    if c == ',' {
                        let ghost oldv = out@;
                        out.push(v);
                        proof {
                            assert(int_seq(out@) =~= int_seq(oldv).push(v as int));
                        }
                        j = k + 1;
                    } else if c == ']' {
                        let ghost oldv = out@;
                        out.push(v);
                        proof {
                            assert(int_seq(out@) =~= int_seq(oldv).push(v as int));
                        }
                        return Some((out, k + 1));
                    } else {
                        return None;
                    }
                } else {
                    return None;
                }
            },
        }
    }
}

/// Read one pair list starting at character position `i`.
fn parse_pair_list_at(s: &str, n: usize, i: usize) -> (r: Option<(Vec<Vec<i64>>, usize)>)
    requires
        n == s@.len(),
        i <= n,
    ensures
        match r {
            Some((ps, j)) => parse_pair_list(s@, i as int) == Some((int_seq2(ps@), j as int))
                && i < j <= n,
            None => parse_pair_list(s@, i as int) is None,
        },
{
    proof {
        lemma_parse_pair_list_bounds(s@, i as int);
    }
    if !(i < n) {
        return None;
    }
    if s.get_char(i) != '[' {
        return None;
    }
    if i + 1 < n && s.get_char(i + 1) == ']' {
        let empty: Vec<Vec<i64>> = Vec::new();
        proof {
            assert(int_seq2(empty@) =~= Seq::<Seq<int>>::empty());
        }
        return Some((empty, i + 2));
    }
    let mut out: Vec<Vec<i64>> = Vec::new();
    let mut j = i + 1;
    proof {
        assert(int_seq2(out@) =~= Seq::<Seq<int>>::empty());
    }
    loop
        invariant
            n == s@.len(),
            i + 1 <= j as int <= n,
            parse_pair_list(s@, i as int) == parse_pair_list_rest(s@, j as int, int_seq2(out@)),
        decreases n - j,
    {
        match parse_num_list_at(s, n, j) {
            None => {
                return None;
            },
            Some((p, k)) => {
                if k < n {
                    let c = s.get_char(k);
                    if c == ',' {
                        let ghost pv = int_seq(p@);
                        let ghost oldv = out@;
                        out.push(p);
                        proof {
                            assert(int_seq2(out@) =~= int_seq2(oldv).push(pv));
                        }
                        j = k + 1;
                    } else if c == ']' {
                        let ghost pv = int_seq(p@);
                        let ghost oldv = out@;
                        out.push(p);
                        proof {
                            assert(int_seq2(out@) =~= int_seq2(oldv).push(pv));
                        }
                        return Some((out, k + 1));
                    } else {
                        return None;
                    }
                } else {
                    return None;
                }
            },
        }
    }
}

/// Read a whole request value as one flat number list, in micro-units.
pub fn parse_number_array(s: &str) -> (r: Option<Vec<i64>>)
    ensures
        match r {
            Some(vs) => spec_parse_numbers(s@) == Some(int_seq(vs@)),
            None => spec_parse_numbers(s@) is None,
        },
        r matches Some(vs) ==> forall|k: int|
            0 <= k < vs@.len() ==> -VALUE_CAP <= #[trigger] vs@[k] <= VALUE_CAP,
{
    let n = s.unicode_len();
    match parse_num_list_at(s, n, 0) {
        Some((vs, j)) => {
            if j == n {
                proof {
                    lemma_parse_num_list_bounds(s@, 0);
                    assert(forall|k: int|
                        0 <= k < vs@.len() ==> int_seq(vs@)[k] == #[trigger] vs@[k] as int);
                }
                Some(vs)
            } else {
                None
            }
        },
        None => None,
    }
}

/// Read a whole request value as one list of coordinate lists, in
/// micro-units.
pub fn parse_pair_array(s: &str) -> (r: Option<Vec<Vec<i64>>>)
    ensures
        match r {
            Some(ps) => spec_parse_pairs(s@) == Some(int_seq2(ps@)),
            None => spec_parse_pairs(s@) is None,
        },
        r matches Some(ps) ==> forall|k: int, m: int|
            0 <= k < ps@.len() && 0 <= m < ps@[k]@.len() ==> -VALUE_CAP <= #[trigger] ps@[k]@[m]
                <= VALUE_CAP,
{
    let n = s.unicode_len();
    match parse_pair_list_at(s, n, 0) {
        Some((ps, j)) => {
            if j == n {
                proof {
                    lemma_parse_pair_list_bounds(s@, 0);
                    assert(forall|k: int, m: int|
                        0 <= k < ps@.len() && 0 <= m < ps@[k]@.len() ==> int_seq2(ps@)[k][m]
                            == #[trigger] ps@[k]@[m] as int);
                }
                Some(ps)
            } else {
                None
            }
        },
        None => None,
    }
}

/// Read a whole request value as one bare number, in micro-units.
pub fn parse_scalar(s: &str) -> (r: Option<i64>)
    ensures
        match r {
            Some(v) => spec_parse_scalar(s@) == Some(v as int),
            None => spec_parse_scalar(s@) is None,
        },
        r matches Some(v) ==> -VALUE_CAP <= v <= VALUE_CAP,
{
    let n = s.unicode_len();
    match parse_number_at(s, n, 0) {
        Some((v, j)) => {
            if j == n {
                proof {
                    lemma_parse_number_bounds(s@, 0);
                }
                Some(v)
            } else {
                None
            }
        },
        None => None,
    }
}

} // verus!

//! Period utility: conversions between (year, month) periods and week
//! numbers, previous-period arithmetic, and month enumeration.
//!
//! Weeks are partitioned over months by a fixed, non-calendar table that
//! every other component relies on; it lives here and only here.

use vstd::prelude::*;

use crate::errors::EngineError;

verus! {

pub open spec fn month_valid(m: int) -> bool {
    1 <= m <= 12
}

pub open spec fn week_valid(w: int) -> bool {
    1 <= w <= 53
}

/// First week number of a month under the fixed 53-week partition.
pub open spec fn spec_week_start(m: int) -> int
    recommends
        month_valid(m),
{
    if m == 1 {
        1
    } else if m == 2 {
        5
    } else if m == 3 {
        9
    } else if m == 4 {
        14
    } else if m == 5 {
        18
    } else if m == 6 {
        23
    } else if m == 7 {
        27
    } else if m == 8 {
        31
    } else if m == 9 {
        36
    } else if m == 10 {
        40
    } else if m == 11 {
        44
    } else {
        49
    }
}

/// Last week number of a month under the fixed 53-week partition.
pub open spec fn spec_week_end(m: int) -> int
    recommends
        month_valid(m),
{
    if m == 1 {
        4
    } else if m == 2 {
        8
    } else if m == 3 {
        13
    } else if m == 4 {
        17
    } else if m == 5 {
        22
    } else if m == 6 {
        26
    } else if m == 7 {
        30
    } else if m == 8 {
        35
    } else if m == 9 {
        39
    } else if m == 10 {
        43
    } else if m == 11 {
        48
    } else {
        53
    }
}

/// The month owning a week number, by upper-bound thresholds.
pub open spec fn spec_week_to_month(w: int) -> int {
    if w <= 4 {
        1
    } else if w <= 8 {
        2
    } else if w <= 13 {
        3
    } else if w <= 17 {
        4
    } else if w <= 22 {
        5
    } else if w <= 26 {
        6
    } else if w <= 30 {
        7
    } else if w <= 35 {
        8
    } else if w <= 39 {
        9
    } else if w <= 43 {
        10
    } else if w <= 48 {
        11
    } else {
        12
    }
}

/// The week table is a self-consistent partition: a month's weeks are
/// exactly the weeks the threshold mapping sends back to that month.
pub proof fn lemma_week_month_partition()
    ensures
        forall|m: int|
            month_valid(m) ==> spec_week_to_month(#[trigger] spec_week_start(m)) == m
                && spec_week_to_month(spec_week_end(m)) == m,
        forall|m: int, w: int|
            month_valid(m) && week_valid(w) ==> ((spec_week_to_month(w) == m) <==> (
            spec_week_start(m) <= w <= spec_week_end(m))),
{
}

pub open spec fn spec_previous_period(y: int, m: int) -> (int, int) {
    if m == 1 {
        (y - 1, 12)
    } else {
        (y, m - 1)
    }
}

pub open spec fn spec_next_period(y: int, m: int) -> (int, int) {
    if m == 12 {
        (y + 1, 1)
    } else {
        (y, m + 1)
    }
}

/// (y1, m1) is the same period as (y2, m2) or an earlier one.
pub open spec fn period_le(y1: int, m1: int, y2: int, m2: int) -> bool {
    y1 < y2 || (y1 == y2 && m1 <= m2)
}

/// Number of months in the inclusive window from (sy, sm) to (ey, em).
pub open spec fn months_in_range(sy: int, sm: int, ey: int, em: int) -> int {
    (ey - sy) * 12 + (em - sm) + 1
}

/// The inclusive, chronological sequence of (year, month) periods of a window.
pub open spec fn spec_months(sy: int, sm: int, ey: int, em: int) -> Seq<(int, int)>
    decreases months_in_range(sy, sm, ey, em),
{
    if !period_le(sy, sm, ey, em) || !month_valid(sm) || !month_valid(em) {
        Seq::empty()
    } else if sy == ey && sm == em {
        seq![(sy, sm)]
    } else {
        seq![(sy, sm)] + spec_months(spec_next_period(sy, sm).0, spec_next_period(sy, sm).1, ey, em)
    }
}

pub proof fn lemma_spec_months_len(sy: int, sm: int, ey: int, em: int)
    requires
        month_valid(sm),
        month_valid(em),
        period_le(sy, sm, ey, em),
    ensures
        spec_months(sy, sm, ey, em).len() == months_in_range(sy, sm, ey, em),
    decreases months_in_range(sy, sm, ey, em),
{
    if !(sy == ey && sm == em) {
        let (ny, nm) = spec_next_period(sy, sm);
        lemma_spec_months_len(ny, nm, ey, em);
    }
}

/// Mathematical view of a vector of (year, month) pairs.
pub open spec fn pairs_view(s: Seq<(i32, i32)>) -> Seq<(int, int)> {
    Seq::new(s.len(), |i: int| (s[i].0 as int, s[i].1 as int))
}

/// The period immediately before (year, month): month 1 wraps to month 12
/// of the previous year.
pub fn previous_period(year: i32, month: i32) -> (r: (i32, i32))
    requires
        month_valid(month as int),
        year > i32::MIN,
    ensures
        (r.0 as int, r.1 as int) == spec_previous_period(year as int, month as int),
        month_valid(r.1 as int),
{
    if month == 1 {
        (year - 1, 12)
    } else {
        (year, month - 1)
    }
}

/// The fixed week range (start, end) of a month.
pub fn month_to_week_range(month: i32) -> (r: (i32, i32))
    requires
        month_valid(month as int),
    ensures
        r.0 as int == spec_week_start(month as int),
        r.1 as int == spec_week_end(month as int),
        week_valid(r.0 as int),
        week_valid(r.1 as int),
{
    match month {
        1 => (1, 4),
        2 => (5, 8),
        3 => (9, 13),
        4 => (14, 17),
        5 => (18, 22),
        6 => (23, 26),
        7 => (27, 30),
        8 => (31, 35),
        9 => (36, 39),
        10 => (40, 43),
        11 => (44, 48),
        _ => (49, 53),
    }
}

/// The month a week number belongs to.
pub fn week_to_month(week_number: i32) -> (m: i32)
    requires
        week_valid(week_number as int),
    ensures
        m as int == spec_week_to_month(week_number as int),
        month_valid(m as int),
{
    if week_number <= 4 {
        1
    } else if week_number <= 8 {
        2
    } else if week_number <= 13 {
        3
    } else if week_number <= 17 {
        4
    } else if week_number <= 22 {
        5
    } else if week_number <= 26 {
        6
    } else if week_number <= 30 {
        7
    } else if week_number <= 35 {
        8
    } else if week_number <= 39 {
        9
    } else if week_number <= 43 {
        10
    } else if week_number <= 48 {
        11
    } else {
        12
    }
}

/// True iff the window covers exactly one month.
pub fn is_single_period(start_year: i32, start_month: i32, end_year: i32, end_month: i32) -> (b:
    bool)
    ensures
        b == (start_year == end_year && start_month == end_month),
{
    start_year == end_year && start_month == end_month
}

/// The inclusive, chronological list of (year, month) periods of a window;
/// `InvalidRange` when the start period lies after the end period.
pub fn enumerate_months(start_year: i32, start_month: i32, end_year: i32, end_month: i32) -> (r:
    Result<Vec<(i32, i32)>, EngineError>)
    requires
        month_valid(start_month as int),
        month_valid(end_month as int),
    ensures
        match r {
            Ok(v) => period_le(start_year as int, start_month as int, end_year as int, end_month as int)
                && pairs_view(v@) == spec_months(
                start_year as int,
                start_month as int,
                end_year as int,
                end_month as int,
            ),
            Err(e) => e == EngineError::InvalidRange && !period_le(
                start_year as int,
                start_month as int,
                end_year as int,
                end_month as int,
            ),
        },
{
    if !(start_year < end_year || (start_year == end_year && start_month <= end_month)) {
        return Err(EngineError::InvalidRange);
    }
    let mut v: Vec<(i32, i32)> = Vec::new();
    let mut y: i32 = start_year;
    let mut m: i32 = start_month;
    loop
        invariant_except_break
            month_valid(m as int),
            month_valid(end_month as int),
            period_le(y as int, m as int, end_year as int, end_month as int),
            pairs_view(v@) + spec_months(y as int, m as int, end_year as int, end_month as int)
                == spec_months(
                start_year as int,
                start_month as int,
                end_year as int,
                end_month as int,
            ),
        ensures
            pairs_view(v@) == spec_months(
                start_year as int,
                start_month as int,
                end_year as int,
                end_month as int,
            ),
        decreases months_in_range(y as int, m as int, end_year as int, end_month as int),
    {
        let ghost prev = v@;
        v.push((y, m));
        proof {
            assert(pairs_view(v@) =~= pairs_view(prev) + seq![(y as int, m as int)]);
        }
        if y == end_year && m == end_month {
            proof {
                assert(spec_months(y as int, m as int, end_year as int, end_month as int) =~= seq![
                    (y as int, m as int),
                ]);
                assert(pairs_view(v@) =~= pairs_view(prev) + spec_months(
                    y as int,
                    m as int,
                    end_year as int,
                    end_month as int,
                ));
            }
            break ;
        }
        proof {
            let (ny, nm) = spec_next_period(y as int, m as int);
            assert(spec_months(y as int, m as int, end_year as int, end_month as int) =~= seq![
                (y as int, m as int),
            ] + spec_months(ny, nm, end_year as int, end_month as int));
            assert(pairs_view(v@) + spec_months(ny, nm, end_year as int, end_month as int)
                =~= pairs_view(prev) + spec_months(
                y as int,
                m as int,
                end_year as int,
                end_month as int,
            ));
        }
        if m == 12 {
            m = 1;
            y = y + 1;
        } else {
            m = m + 1;
        }
    }
    Ok(v)
}

} // verus!

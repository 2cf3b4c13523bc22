//! Metric resolver: one nullable scalar per office for a named metric
//! over a reporting window.
//!
//! Values are exact rationals.  Single-month windows read exact stored
//! values; multi-month windows sum revenue and average the volume
//! metrics; percent metrics exist only for single-month windows and are
//! guarded against zero revenue; data completeness is always defined.
//! An unknown metric name resolves to an absent value for every office,
//! deliberately, instead of an error.

use vstd::prelude::*;

use vstd::arithmetic::mul::lemma_mul_inequality;
use vstd::string::StringSliceAdditionalSpecFns;

use crate::errors::EngineError;
use crate::period::{month_valid, period_le, months_in_range};
use crate::records::{FinancialData, VolumeData, KeyedRow, row_at, fin_row_wf, MAX_AMOUNT};
use crate::store::Store;
use crate::value::{Rational, rat_wf};

verus! {

/// The closed set of metrics the resolver understands.
#[derive(Clone, Copy, Debug, PartialEq, Eq, Structural)]
pub enum Metric {
    Revenue,
    LabExpensePercent,
    PersonnelExpensePercent,
    TotalWeeklyUnits,
    BacklogInLab,
    BacklogInClinic,
    DataCompleteness,
}

/// Period (y, m) lies inside the inclusive window.
pub open spec fn in_window(sy: int, sm: int, ey: int, em: int, y: int, m: int) -> bool {
    period_le(sy, sm, y, m) && period_le(y, m, ey, em)
}

/// An executable `Option<Rational>` carries exactly a specified
/// numerator/denominator pair, with a positive denominator.
pub open spec fn rat_matches(r: Option<Rational>, v: Option<(int, int)>) -> bool {
    match r {
        Some(a) => match v {
            Some(b) => a.num == b.0 && a.den == b.1 && rat_wf(a),
            None => false,
        },
        None => v is None,
    }
}

/// Metric name resolution over the name's byte sequence.
pub open spec fn spec_metric_from_name(b: Seq<u8>) -> Option<Metric> {
    if b == "revenue".spec_bytes() {
        Some(Metric::Revenue)
    } else if b == "lab_expense_percent".spec_bytes() {
        Some(Metric::LabExpensePercent)
    } else if b == "personnel_expense_percent".spec_bytes() {
        Some(Metric::PersonnelExpensePercent)
    } else if b == "total_weekly_units".spec_bytes() {
        Some(Metric::TotalWeeklyUnits)
    } else if b == "backlog_in_lab".spec_bytes() {
        Some(Metric::BacklogInLab)
    } else if b == "backlog_in_clinic".spec_bytes() {
        Some(Metric::BacklogInClinic)
    } else if b == "data_completeness".spec_bytes() {
        Some(Metric::DataCompleteness)
    } else {
        None
    }
}

/// Revenue sum and contributing-row count of one office over a window;
/// a row contributes when its revenue is present.
pub open spec fn rev_sum(s: Seq<FinancialData>, o: int, sy: int, sm: int, ey: int, em: int) -> (
    int,
    int,
)
    decreases s.len(),
{
    if s.len() == 0 {
        (0, 0)
    } else {
        let prev = rev_sum(s.drop_last(), o, sy, sm, ey, em);
        let r = s.last();
        if r.office_id as int == o && in_window(sy, sm, ey, em, r.year as int, r.month as int) {
            match r.revenue {
                Some(v) => (prev.0 + v as int, prev.1 + 1),
                None => prev,
            }
        } else {
            prev
        }
    }
}

/// The volume column a metric reads.
pub open spec fn vol_field(v: VolumeData, metric: Metric) -> int {
    match metric {
        Metric::TotalWeeklyUnits => v.total_weekly_units as int,
        Metric::BacklogInLab => v.backlog_in_lab as int,
        Metric::BacklogInClinic => v.backlog_in_clinic as int,
        _ => 0,
    }
}

/// Sum of one volume column and row count of one office over a window.
pub open spec fn vol_sum(
    s: Seq<VolumeData>,
    o: int,
    metric: Metric,
    sy: int,
    sm: int,
    ey: int,
    em: int,
) -> (int, int)
    decreases s.len(),
{
    if s.len() == 0 {
        (0, 0)
    } else {
        let prev = vol_sum(s.drop_last(), o, metric, sy, sm, ey, em);
        let r = s.last();
        if r.office_id as int == o && in_window(sy, sm, ey, em, r.year as int, r.month as int) {
            (prev.0 + vol_field(r, metric), prev.1 + 1)
        } else {
            prev
        }
    }
}

/// Number of rows of one office whose key period lies in the window.
pub open spec fn count_in_window<T: KeyedRow>(
    s: Seq<T>,
    o: int,
    sy: int,
    sm: int,
    ey: int,
    em: int,
) -> int
    decreases s.len(),
{
    if s.len() == 0 {
        0
    } else {
        let prev = count_in_window(s.drop_last(), o, sy, sm, ey, em);
        let k = s.last().row_key();
        if k.0 == o && in_window(sy, sm, ey, em, k.1, k.2) {
            prev + 1
        } else {
            prev
        }
    }
}

/// A percent metric of one office for a single month: the numerator over
/// revenue, times one hundred, defined only when both are present and
/// revenue is positive.
pub open spec fn pct_value(row: Option<FinancialData>, numerator: Option<i64>) -> Option<
    (int, int),
> {
    match row {
        Some(r) => match r.revenue {
            Some(rev) => match numerator {
                Some(nm) => if rev > 0 {
                    Some((100 * nm as int, rev as int))
                } else {
                    None
                },
                None => None,
            },
            None => None,
        },
        None => None,
    }
}

/// The percent numerator a metric reads from a financial row.
pub open spec fn pct_numerator(row: Option<FinancialData>, metric: Metric) -> Option<i64> {
    match row {
        Some(r) => match metric {
            Metric::LabExpensePercent => r.lab_exp_with_outside,
            Metric::PersonnelExpensePercent => r.personnel_exp,
            _ => None,
        },
        None => None,
    }
}

/// The value of a metric for one office over a window, as an exact
/// (numerator, denominator) pair; absent where the data is missing, the
/// metric name is unknown, or a percent metric meets a multi-month
/// window or non-positive revenue.
pub open spec fn spec_metric_value(
    s: Store,
    o: int,
    metric: Option<Metric>,
    sy: int,
    sm: int,
    ey: int,
    em: int,
) -> Option<(int, int)> {
    let single = sy == ey && sm == em;
    match metric {
        None => None,
        Some(Metric::Revenue) => if single {
            match row_at(s.financials@, (o, sy, sm)) {
                Some(row) => match row.revenue {
                    Some(v) => Some((v as int, 1)),
                    None => None,
                },
                None => None,
            }
        } else {
            let (sum, cnt) = rev_sum(s.financials@, o, sy, sm, ey, em);
            if cnt == 0 {
                None
            } else {
                Some((sum, 1))
            }
        },
        Some(Metric::LabExpensePercent) => if single {
            pct_value(
                row_at(s.financials@, (o, sy, sm)),
                pct_numerator(row_at(s.financials@, (o, sy, sm)), Metric::LabExpensePercent),
            )
        } else {
            None
        },
        Some(Metric::PersonnelExpensePercent) => if single {
            pct_value(
                row_at(s.financials@, (o, sy, sm)),
                pct_numerator(row_at(s.financials@, (o, sy, sm)), Metric::PersonnelExpensePercent),
            )
        } else {
            None
        },
        Some(Metric::DataCompleteness) => {
            let fc = count_in_window(s.financials@, o, sy, sm, ey, em);
            let vc = count_in_window(s.volumes@, o, sy, sm, ey, em);
            Some((100 * (fc + vc), 2 * months_in_range(sy, sm, ey, em)))
        },
        Some(m) => {
            let (sum, cnt) = vol_sum(s.volumes@, o, m, sy, sm, ey, em);
            if cnt == 0 {
                None
            } else {
                Some((sum, cnt))
            }
        },
    }
}

/// A percent metric is absent whenever the month's revenue is missing or
/// not positive — zero revenue never divides.
pub proof fn lemma_percent_guard(s: Store, o: int, y: int, m: int, metric: Metric)
    requires
        metric == Metric::LabExpensePercent || metric == Metric::PersonnelExpensePercent,
        match row_at(s.financials@, (o, y, m)) {
            Some(row) => match row.revenue {
                Some(rev) => rev <= 0,
                None => true,
            },
            None => true,
        },
    ensures
        spec_metric_value(s, o, Some(metric), y, m, y, m) is None,
{
}

/// An unknown metric name yields an absent value for every office, every
/// store and every window.
pub proof fn lemma_unknown_metric_none(s: Store, o: int, sy: int, sm: int, ey: int, em: int)
    ensures
        spec_metric_value(s, o, None, sy, sm, ey, em) is None,
{
}

/// Byte-for-byte slice equality.
fn bytes_eq(a: &[u8], b: &[u8]) -> (r: bool)
    ensures
        r == (a@ == b@),
{
    if a.len() != b.len() {
        proof {
            assert(a@.len() != b@.len());
        }
        return false;
    }
    let mut i: usize = 0;
    while i < a.len()
        invariant
            i <= a@.len(),
            a@.len() == b@.len(),
            forall|j: int| 0 <= j < i ==> a@[j] == b@[j],
        decreases a@.len() - i,
    {
        if a[i] != b[i] {
            return false;
        }
        i = i + 1;
    }
    proof {
        assert(a@ =~= b@);
    }
    true
}

/// Parses a metric name; unknown names give `None`.
pub fn metric_from_name(name: &str) -> (m: Option<Metric>)
    ensures
        m == spec_metric_from_name(name.spec_bytes()),
{
    let b = name.as_bytes();
    if bytes_eq(b, "revenue".as_bytes()) {
        Some(Metric::Revenue)
    } else if bytes_eq(b, "lab_expense_percent".as_bytes()) {
        Some(Metric::LabExpensePercent)
    } else if bytes_eq(b, "personnel_expense_percent".as_bytes()) {
        Some(Metric::PersonnelExpensePercent)
    } else if bytes_eq(b, "total_weekly_units".as_bytes()) {
        Some(Metric::TotalWeeklyUnits)
    } else if bytes_eq(b, "backlog_in_lab".as_bytes()) {
        Some(Metric::BacklogInLab)
    } else if bytes_eq(b, "backlog_in_clinic".as_bytes()) {
        Some(Metric::BacklogInClinic)
    } else if bytes_eq(b, "data_completeness".as_bytes()) {
        Some(Metric::DataCompleteness)
    } else {
        None
    }
}

/// Parses a metric name for programmatic callers, where an unknown name
/// is a usage error.
pub fn require_metric(name: &str) -> (r: Result<Metric, EngineError>)
    ensures
        match r {
            Ok(m) => spec_metric_from_name(name.spec_bytes()) == Some(m),
            Err(e) => e == EngineError::InvalidMetric && spec_metric_from_name(
                name.spec_bytes(),
            ) is None,
        },
{
    match metric_from_name(name) {
        Some(m) => Ok(m),
        None => Err(EngineError::InvalidMetric),
    }
}

/// True iff (y, m) lies inside the inclusive window.
fn in_window_exec(sy: i32, sm: i32, ey: i32, em: i32, y: i32, m: i32) -> (r: bool)
    ensures
        r == in_window(sy as int, sm as int, ey as int, em as int, y as int, m as int),
{
    (sy < y || (sy == y && sm <= m)) && (y < ey || (y == ey && m <= em))
}

/// Revenue sum and contributing count of one office over a window.
pub(crate) fn rev_sum_exec(v: &Vec<FinancialData>, o: i64, sy: i32, sm: i32, ey: i32, em: i32) -> (r: (
    i128,
    usize,
))
    requires
        forall|i: int| 0 <= i < v@.len() ==> fin_row_wf(#[trigger] v@[i]),
    ensures
        (r.0 as int, r.1 as int) == rev_sum(v@, o as int, sy as int, sm as int, ey as int, em as int),
{
    let ghost gw = (o as int, sy as int, sm as int, ey as int, em as int);
    let mut sum: i128 = 0;
    let mut cnt: usize = 0;
    let mut i: usize = 0;
    while i < v.len()
        invariant
            i <= v@.len(),
            forall|x: int| 0 <= x < v@.len() ==> fin_row_wf(#[trigger] v@[x]),
            (sum as int, cnt as int) == rev_sum(
                v@.take(i as int),
                o as int,
                sy as int,
                sm as int,
                ey as int,
                em as int,
            ),
            cnt <= i,
            -((i as int) * (MAX_AMOUNT as int)) <= sum <= (i as int) * (MAX_AMOUNT as int),
        decreases v@.len() - i,
    {
        let ghost prefix = v@.take(i as int);
        let row = v[i];
        if row.office_id == o && in_window_exec(sy, sm, ey, em, row.year, row.month) {
            match row.revenue {
                Some(x) => {
                    sum = sum + x as i128;
                    cnt = cnt + 1;
                },
                None => {},
            }
        }
        proof {
            let next = v@.take(i as int + 1);
            assert(next.drop_last() =~= prefix);
            assert(next.last() == v@[i as int]);
            lemma_mul_inequality(i as int + 1, 0x1_0000_0000_0000_0000, MAX_AMOUNT as int);
        }
        i = i + 1;
    }
    proof {
        assert(v@.take(v@.len() as int) =~= v@);
    }
    (sum, cnt)
}

/// The volume column a metric reads, as executable code.
fn vol_field_get(v: &VolumeData, metric: Metric) -> (c: i32)
    ensures
        c as int == vol_field(*v, metric),
{
    match metric {
        Metric::TotalWeeklyUnits => v.total_weekly_units,
        Metric::BacklogInLab => v.backlog_in_lab,
        Metric::BacklogInClinic => v.backlog_in_clinic,
        _ => 0,
    }
}

/// Sum of one volume column and row count of one office over a window.
fn vol_sum_exec(v: &Vec<VolumeData>, o: i64, metric: Metric, sy: i32, sm: i32, ey: i32, em: i32)
    -> (r: (i128, usize))
    ensures
        (r.0 as int, r.1 as int) == vol_sum(
            v@,
            o as int,
            metric,
            sy as int,
            sm as int,
            ey as int,
            em as int,
        ),
{
    let mut sum: i128 = 0;
    let mut cnt: usize = 0;
    let mut i: usize = 0;
    while i < v.len()
        invariant
            i <= v@.len(),
            (sum as int, cnt as int) == vol_sum(
                v@.take(i as int),
                o as int,
                metric,
                sy as int,
                sm as int,
                ey as int,
                em as int,
            ),
            cnt <= i,
            -((i as int) * 0x8000_0000) <= sum <= (i as int) * 0x8000_0000,
        decreases v@.len() - i,
    {
        let ghost prefix = v@.take(i as int);
        let row = v[i];
        if row.office_id == o && in_window_exec(sy, sm, ey, em, row.year, row.month) {
            let c = vol_field_get(&row, metric);
            sum = sum + c as i128;
            cnt = cnt + 1;
        }
        proof {
            let next = v@.take(i as int + 1);
            assert(next.drop_last() =~= prefix);
            assert(next.last() == v@[i as int]);
            lemma_mul_inequality(i as int + 1, 0x1_0000_0000_0000_0000, 0x8000_0000);
        }
        i = i + 1;
    }
    proof {
        assert(v@.take(v@.len() as int) =~= v@);
    }
    (sum, cnt)
}

/// Number of rows of one office whose period lies in the window.
fn count_in_window_exec<T: KeyedRow>(v: &Vec<T>, o: i64, sy: i32, sm: i32, ey: i32, em: i32) -> (r:
    usize)
    ensures
        r as int == count_in_window(v@, o as int, sy as int, sm as int, ey as int, em as int),
{
    let mut cnt: usize = 0;
    let mut i: usize = 0;
    while i < v.len()
        invariant
            i <= v@.len(),
            cnt <= i,
            cnt as int == count_in_window(
                v@.take(i as int),
                o as int,
                sy as int,
                sm as int,
                ey as int,
                em as int,
            ),
        decreases v@.len() - i,
    {
        let ghost prefix = v@.take(i as int);
        let k = v[i].key_cols();
        if k.0 == o && in_window_exec(sy, sm, ey, em, k.1, k.2) {
            cnt = cnt + 1;
        }
        proof {
            let next = v@.take(i as int + 1);
            assert(next.drop_last() =~= prefix);
            assert(next.last() == v@[i as int]);
        }
        i = i + 1;
    }
    proof {
        assert(v@.take(v@.len() as int) =~= v@);
    }
    cnt
}

/// The value of a metric for one office over a valid window; `None` for
/// an unknown metric or missing data.
pub fn metric_value_for_office(
    store: &Store,
    office_id: i64,
    metric: Option<Metric>,
    start_year: i32,
    start_month: i32,
    end_year: i32,
    end_month: i32,
) -> (r: Option<Rational>)
    requires
        store.wf(),
        month_valid(start_month as int),
        month_valid(end_month as int),
        period_le(start_year as int, start_month as int, end_year as int, end_month as int),
    ensures
        rat_matches(
            r,
            spec_metric_value(
                *store,
                office_id as int,
                metric,
                start_year as int,
                start_month as int,
                end_year as int,
                end_month as int,
            ),
        ),
{
    let single = start_year == end_year && start_month == end_month;
    match metric {
        None => None,
        Some(Metric::Revenue) => {
            if single {
                match store.get_monthly_financial(office_id, start_year, start_month) {
                    Some(row) => match row.revenue {
                        Some(v) => Some(Rational::whole(v as i128)),
                        None => None,
                    },
                    None => None,
                }
            } else {
                let (sum, cnt) = rev_sum_exec(
                    &store.financials,
                    office_id,
                    start_year,
                    start_month,
                    end_year,
                    end_month,
                );
                if cnt == 0 {
                    None
                } else {
                    Some(Rational::whole(sum))
                }
            }
        },
        Some(Metric::LabExpensePercent) | Some(Metric::PersonnelExpensePercent) => {
            if single {
                match store.get_monthly_financial(office_id, start_year, start_month) {
                    Some(row) => {
                        let numerator = if matches!(metric, Some(Metric::LabExpensePercent)) {
                            row.lab_exp_with_outside
                        } else {
                            row.personnel_exp
                        };
                        match (row.revenue, numerator) {
                            (Some(rev), Some(nm)) => {
                                if rev > 0 {
                                    Some(
                                        Rational {
                                            num: 100 * (nm as i128),
                                            den: rev as i128,
                                        },
                                    )
                                } else {
                                    None
                                }
                            },
                            _ => None,
                        }
                    },
                    None => None,
                }
            } else {
                None
            }
        },
        Some(Metric::DataCompleteness) => {
            let fc = count_in_window_exec(
                &store.financials,
                office_id,
                start_year,
                start_month,
                end_year,
                end_month,
            );
            let vc = count_in_window_exec(
                &store.volumes,
                office_id,
                start_year,
                start_month,
                end_year,
                end_month,
            );
            let months: i128 = (end_year as i128 - start_year as i128) * 12
                + (end_month as i128 - start_month as i128) + 1;
            Some(Rational { num: 100 * (fc as i128 + vc as i128), den: 2 * months })
        },
        Some(m) => {
            let (sum, cnt) = vol_sum_exec(
                &store.volumes,
                office_id,
                m,
                start_year,
                start_month,
                end_year,
                end_month,
            );
            if cnt == 0 {
                None
            } else {
                Some(Rational { num: sum, den: cnt as i128 })
            }
        },
    }
}

/// The value of the named metric for every office, ascending by office
/// id; an unknown name gives `None` for every office, a malformed window
/// gives `InvalidRange`.
pub fn resolve_metric_values(
    store: &Store,
    name: &str,
    start_year: i32,
    start_month: i32,
    end_year: i32,
    end_month: i32,
) -> (r: Result<Vec<(i64, Option<Rational>)>, EngineError>)
    requires
        store.wf(),
        month_valid(start_month as int),
        month_valid(end_month as int),
    ensures
        match r {
            Ok(v) => {
                &&& period_le(
                    start_year as int,
                    start_month as int,
                    end_year as int,
                    end_month as int,
                )
                &&& v@.len() == store.offices@.len()
                &&& forall|i: int|
                    0 <= i < v@.len() ==> (#[trigger] v@[i]).0 == store.offices@[i].office_id
                        && rat_matches(
                        v@[i].1,
                        spec_metric_value(
                            *store,
                            store.offices@[i].office_id as int,
                            spec_metric_from_name(name.spec_bytes()),
                            start_year as int,
                            start_month as int,
                            end_year as int,
                            end_month as int,
                        ),
                    )
            },
            Err(e) => e == EngineError::InvalidRange && !period_le(
                start_year as int,
                start_month as int,
                end_year as int,
                end_month as int,
            ),
        },
{
    if !(start_year < end_year || (start_year == end_year && start_month <= end_month)) {
        return Err(EngineError::InvalidRange);
    }
    let metric = metric_from_name(name);
    let mut out: Vec<(i64, Option<Rational>)> = Vec::new();
    let mut i: usize = 0;
    while i < store.offices.len()
        invariant
            store.wf(),
            i <= store.offices@.len(),
            out@.len() == i,
            month_valid(start_month as int),
            month_valid(end_month as int),
            period_le(start_year as int, start_month as int, end_year as int, end_month as int),
            metric == spec_metric_from_name(name.spec_bytes()),
            forall|x: int|
                0 <= x < i ==> (#[trigger] out@[x]).0 == store.offices@[x].office_id && rat_matches(
                    out@[x].1,
                    spec_metric_value(
                        *store,
                        store.offices@[x].office_id as int,
                        metric,
                        start_year as int,
                        start_month as int,
                        end_year as int,
                        end_month as int,
                    ),
                ),
        decreases store.offices@.len() - i,
    {
        let oid = store.offices[i].office_id;
        let value = metric_value_for_office(
            store,
            oid,
            metric,
            start_year,
            start_month,
            end_year,
            end_month,
        );
        out.push((oid, value));
        i = i + 1;
    }
    Ok(out)
}

} // verus!

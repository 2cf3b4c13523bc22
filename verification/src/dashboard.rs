//! Dashboard summarizer: one combined record per office for a reporting
//! window, merging financial, operations, volume and notes presence with
//! derived percentages and the office's most recent period with data.
//!
//! Single-month windows read exact values and compute percentages;
//! multi-month windows suppress percentages, sum revenue, and average the
//! operations backlog.  Presence of a leading subset of the financial
//! fields (revenue; +lab; +personnel; +overtime) still counts as having
//! financial data; any other partial combination does not.  Operations
//! data counts as present only where a backlog case count is stored: an
//! operations row whose count is absent reads as no operations data.

use vstd::prelude::*;

use crate::errors::EngineError;
use crate::period::{month_valid, period_le};
use crate::records::{Office, FinancialData, OperationsData, KeyedRow, row_at, opt_str_eqv,
    clone_opt_string};
use crate::store::Store;
use crate::metrics::{in_window, rev_sum, rat_matches};
use crate::value::{Rational, rounded_ratio, round_ratio, lemma_rounded_ratio_bounds};

verus! {

/// One office's dashboard summary.
pub struct OfficeSummary {
    pub office_id: i64,
    pub office_name: String,
    pub model: String,
    pub dfo: Option<String>,
    pub latest_month: Option<i32>,
    pub latest_year: Option<i32>,
    pub revenue: Option<i128>,
    pub lab_exp_percent: Option<Rational>,
    pub personnel_percent: Option<Rational>,
    pub overtime_percent: Option<Rational>,
    pub backlog_count: Option<i32>,
    pub has_financial: bool,
    pub has_operations: bool,
    pub has_volume: bool,
    pub has_notes: bool,
}

/// Tiered reading of a month's financial row: the longest present
/// leading subset of (revenue, lab expense, personnel, overtime) counts
/// as financial data; the remaining fields read as absent.
pub open spec fn fin_tier(row: Option<FinancialData>) -> (
    Option<i64>,
    Option<i64>,
    Option<i64>,
    Option<i64>,
    bool,
) {
    match row {
        None => (None, None, None, None, false),
        Some(r) => match (r.revenue, r.lab_exp_with_outside, r.personnel_exp, r.overtime_exp) {
            (Some(a), Some(b), Some(c), Some(d)) => (Some(a), Some(b), Some(c), Some(d), true),
            (Some(a), Some(b), Some(c), _) => (Some(a), Some(b), Some(c), None, true),
            (Some(a), Some(b), _, _) => (Some(a), Some(b), None, None, true),
            (Some(a), _, _, _) => (Some(a), None, None, None, true),
            _ => (None, None, None, None, false),
        },
    }
}

/// Percent of revenue, times one hundred, defined only for positive
/// revenue with a present numerator.
pub open spec fn pct_from(rev: Option<i64>, num: Option<i64>) -> Option<(int, int)> {
    match rev {
        Some(r) => match num {
            Some(n) => if r > 0 {
                Some((100 * n as int, r as int))
            } else {
                None
            },
            None => None,
        },
        None => None,
    }
}

/// Some row of the office has its period inside the window.
pub open spec fn exists_in_window<T: KeyedRow>(
    s: Seq<T>,
    o: int,
    sy: int,
    sm: int,
    ey: int,
    em: int,
) -> bool {
    exists|i: int|
        0 <= i < s.len() && (#[trigger] s[i].row_key()).0 == o && in_window(
            sy,
            sm,
            ey,
            em,
            s[i].row_key().1,
            s[i].row_key().2,
        )
}

/// The later of a known-latest period and one more period.
pub open spec fn period_max(a: Option<(int, int)>, y: int, m: int) -> Option<(int, int)> {
    match a {
        None => Some((y, m)),
        Some(p) => if p.0 < y || (p.0 == y && p.1 < m) {
            Some((y, m))
        } else {
            Some(p)
        },
    }
}

/// The most recent (year, month) among an office's rows of one table.
pub open spec fn latest_for<T: KeyedRow>(s: Seq<T>, o: int) -> Option<(int, int)>
    decreases s.len(),
{
    if s.len() == 0 {
        None
    } else {
        let prev = latest_for(s.drop_last(), o);
        let k = s.last().row_key();
        if k.0 == o {
            period_max(prev, k.1, k.2)
        } else {
            prev
        }
    }
}

/// Merges two latest-period candidates.
pub open spec fn period_merge(a: Option<(int, int)>, b: Option<(int, int)>) -> Option<(int, int)> {
    match b {
        None => a,
        Some(p) => period_max(a, p.0, p.1),
    }
}

/// Sum and count of present backlog case counts of one office's
/// operations rows inside the window.
pub open spec fn backlog_sum(
    s: Seq<OperationsData>,
    o: int,
    sy: int,
    sm: int,
    ey: int,
    em: int,
) -> (int, int)
    decreases s.len(),
{
    if s.len() == 0 {
        (0, 0)
    } else {
        let prev = backlog_sum(s.drop_last(), o, sy, sm, ey, em);
        let r = s.last();
        if r.office_id as int == o && in_window(sy, sm, ey, em, r.year as int, r.month as int) {
            match r.backlog_case_count {
                Some(c) => (prev.0 + c as int, prev.1 + 1),
                None => prev,
            }
        } else {
            prev
        }
    }
}

/// The most recent period with any financial, operations or volume row,
/// over the office's whole history.
pub open spec fn spec_latest(s: Store, o: int) -> Option<(int, int)> {
    period_merge(
        period_merge(latest_for(s.financials@, o), latest_for(s.ops@, o)),
        latest_for(s.volumes@, o),
    )
}

/// What one office's dashboard summary must hold for a window.
pub open spec fn summary_matches(
    s: Store,
    off: Office,
    sum: OfficeSummary,
    sy: int,
    sm: int,
    ey: int,
    em: int,
) -> bool {
    let o = off.office_id as int;
    let single = sy == ey && sm == em;
    let tier = fin_tier(row_at(s.financials@, (o, sy, sm)));
    &&& sum.office_id == off.office_id
    &&& sum.office_name@ == off.office_name@
    &&& sum.model@ == off.model@
    &&& opt_str_eqv(sum.dfo, off.dfo)
    &&& (if single {
        &&& sum.has_financial == tier.4
        &&& sum.revenue == (match tier.0 {
            Some(v) => Some(v as i128),
            None => None,
        })
        &&& rat_matches(sum.lab_exp_percent, pct_from(tier.0, tier.1))
        &&& rat_matches(sum.personnel_percent, pct_from(tier.0, tier.2))
        &&& rat_matches(sum.overtime_percent, pct_from(tier.0, tier.3))
        &&& sum.has_operations == (match row_at(s.ops@, (o, sy, sm)) {
            Some(r) => r.backlog_case_count is Some,
            None => false,
        })
        &&& sum.backlog_count == (match row_at(s.ops@, (o, sy, sm)) {
            Some(r) => r.backlog_case_count,
            None => None,
        })
    } else {
        let rv = rev_sum(s.financials@, o, sy, sm, ey, em);
        let bl = backlog_sum(s.ops@, o, sy, sm, ey, em);
        &&& sum.has_financial == exists_in_window(s.financials@, o, sy, sm, ey, em)
        &&& sum.revenue == (if rv.1 == 0 {
            Option::<i128>::None
        } else {
            Some(rv.0 as i128)
        })
        &&& sum.lab_exp_percent is None
        &&& sum.personnel_percent is None
        &&& sum.overtime_percent is None
        &&& sum.has_operations == (bl.1 != 0)
        &&& sum.backlog_count == (if bl.1 == 0 {
            Option::<i32>::None
        } else {
            Some(rounded_ratio(bl.0, bl.1) as i32)
        })
    })
    &&& sum.has_volume == exists_in_window(s.volumes@, o, sy, sm, ey, em)
    &&& sum.has_notes == exists_in_window(s.notes@, o, sy, sm, ey, em)
    &&& (match spec_latest(s, o) {
        Some(p) => sum.latest_year == Some(p.0 as i32) && sum.latest_month == Some(p.1 as i32),
        None => sum.latest_year is None && sum.latest_month is None,
    })
}

/// An office with no rows in any table still gets a summary, with every
/// value absent and every presence flag false.
pub proof fn lemma_empty_office_summary(
    s: Store,
    off: Office,
    sum: OfficeSummary,
    sy: int,
    sm: int,
    ey: int,
    em: int,
)
    requires
        summary_matches(s, off, sum, sy, sm, ey, em),
        forall|i: int|
            0 <= i < s.financials@.len() ==> (#[trigger] s.financials@[i]).office_id as int
                != off.office_id as int,
        forall|i: int|
            0 <= i < s.ops@.len() ==> (#[trigger] s.ops@[i]).office_id as int
                != off.office_id as int,
        forall|i: int|
            0 <= i < s.volumes@.len() ==> (#[trigger] s.volumes@[i]).office_id as int
                != off.office_id as int,
        forall|i: int|
            0 <= i < s.notes@.len() ==> (#[trigger] s.notes@[i]).office_id as int
                != off.office_id as int,
    ensures
        sum.revenue is None,
        sum.lab_exp_percent is None,
        sum.personnel_percent is None,
        sum.overtime_percent is None,
        sum.backlog_count is None,
        !sum.has_financial,
        !sum.has_operations,
        !sum.has_volume,
        !sum.has_notes,
        sum.latest_year is None,
        sum.latest_month is None,
{
    let o = off.office_id as int;
    assert forall|i: int| 0 <= i < s.financials@.len() implies #[trigger] s.financials@[i].row_key()
        != (o, sy, sm) by {}
    crate::records::lemma_row_at_absent(s.financials@, (o, sy, sm));
    assert forall|i: int| 0 <= i < s.ops@.len() implies #[trigger] s.ops@[i].row_key() != (
        o,
        sy,
        sm,
    ) by {}
    crate::records::lemma_row_at_absent(s.ops@, (o, sy, sm));
    lemma_rev_sum_absent(s.financials@, o, sy, sm, ey, em);
    lemma_backlog_sum_absent(s.ops@, o, sy, sm, ey, em);
    lemma_latest_absent(s.financials@, o);
    lemma_latest_absent(s.ops@, o);
    lemma_latest_absent(s.volumes@, o);
}

proof fn lemma_rev_sum_absent(s: Seq<FinancialData>, o: int, sy: int, sm: int, ey: int, em: int)
    requires
        forall|i: int| 0 <= i < s.len() ==> (#[trigger] s[i]).office_id as int != o,
    ensures
        rev_sum(s, o, sy, sm, ey, em) == (0int, 0int),
    decreases s.len(),
{
    if s.len() > 0 {
        let head = s.drop_last();
        assert forall|i: int| 0 <= i < head.len() implies (#[trigger] head[i]).office_id as int
            != o by {
            assert(head[i] == s[i]);
        }
        lemma_rev_sum_absent(head, o, sy, sm, ey, em);
    }
}

proof fn lemma_backlog_sum_absent(s: Seq<OperationsData>, o: int, sy: int, sm: int, ey: int, em: int)
    requires
        forall|i: int| 0 <= i < s.len() ==> (#[trigger] s[i]).office_id as int != o,
    ensures
        backlog_sum(s, o, sy, sm, ey, em) == (0int, 0int),
    decreases s.len(),
{
    if s.len() > 0 {
        let head = s.drop_last();
        assert forall|i: int| 0 <= i < head.len() implies (#[trigger] head[i]).office_id as int
            != o by {
            assert(head[i] == s[i]);
        }
        lemma_backlog_sum_absent(head, o, sy, sm, ey, em);
    }
}

proof fn lemma_latest_absent<T: KeyedRow>(s: Seq<T>, o: int)
    requires
        forall|i: int| 0 <= i < s.len() ==> (#[trigger] s[i].row_key()).0 != o,
    ensures
        latest_for(s, o) is None,
    decreases s.len(),
{
    if s.len() > 0 {
        let head = s.drop_last();
        assert forall|i: int| 0 <= i < head.len() implies (#[trigger] head[i].row_key()).0 != o by {
            assert(head[i] == s[i]);
        }
        lemma_latest_absent(head, o);
        assert(s[s.len() - 1].row_key().0 != o);
    }
}

/// True iff some row of the office lies inside the window.
fn exists_in_window_exec<T: KeyedRow>(v: &Vec<T>, o: i64, sy: i32, sm: i32, ey: i32, em: i32) -> (r:
    bool)
    ensures
        r == exists_in_window(v@, o as int, sy as int, sm as int, ey as int, em as int),
{
    let mut i: usize = 0;
    while i < v.len()
        invariant
            i <= v@.len(),
            forall|j: int|
                0 <= j < i ==> !((#[trigger] v@[j].row_key()).0 == o as int && in_window(
                    sy as int,
                    sm as int,
                    ey as int,
                    em as int,
                    v@[j].row_key().1,
                    v@[j].row_key().2,
                )),
        decreases v@.len() - i,
    {
        let k = v[i].key_cols();
        if k.0 == o && (sy < k.1 || (sy == k.1 && sm <= k.2)) && (k.1 < ey || (k.1 == ey && k.2
            <= em)) {
            return true;
        }
        i = i + 1;
    }
    false
}

/// The most recent (year, month) among an office's rows of one table.
fn latest_scan<T: KeyedRow>(v: &Vec<T>, o: i64) -> (r: Option<(i32, i32)>)
    ensures
        match r {
            Some(p) => latest_for(v@, o as int) == Some((p.0 as int, p.1 as int)),
            None => latest_for(v@, o as int) is None,
        },
{
    let mut best: Option<(i32, i32)> = None;
    let mut i: usize = 0;
    while i < v.len()
        invariant
            i <= v@.len(),
            match best {
                Some(p) => latest_for(v@.take(i as int), o as int) == Some(
                    (p.0 as int, p.1 as int),
                ),
                None => latest_for(v@.take(i as int), o as int) is None,
            },
        decreases v@.len() - i,
    {
        let ghost prefix = v@.take(i as int);
        let k = v[i].key_cols();
        if k.0 == o {
            best = match best {
                None => Some((k.1, k.2)),
                Some(p) => {
                    if p.0 < k.1 || (p.0 == k.1 && p.1 < k.2) {
                        Some((k.1, k.2))
                    } else {
                        Some(p)
                    }
                },
            };
        }
        proof {
            let next = v@.take(i as int + 1);
            assert(next.drop_last() =~= prefix);
            assert(next.last() == v@[i as int]);
        }
        i = i + 1;
    }
    proof {
        assert(v@.take(v@.len() as int) =~= v@);
    }
    best
}

/// Merges two latest-period candidates, later period wins.
fn merge_latest(a: Option<(i32, i32)>, b: Option<(i32, i32)>, Ghost(sa): Ghost<Option<(int, int)>>,
    Ghost(sb): Ghost<Option<(int, int)>>) -> (r: Option<(i32, i32)>)
    requires
        match a {
            Some(p) => sa == Some((p.0 as int, p.1 as int)),
            None => sa is None,
        },
        match b {
            Some(p) => sb == Some((p.0 as int, p.1 as int)),
            None => sb is None,
        },
    ensures
        match r {
            Some(p) => period_merge(sa, sb) == Some((p.0 as int, p.1 as int)),
            None => period_merge(sa, sb) is None,
        },
{
    match b {
        None => a,
        Some(q) => match a {
            None => Some(q),
            Some(p) => {
                if p.0 < q.0 || (p.0 == q.0 && p.1 < q.1) {
                    Some(q)
                } else {
                    Some(p)
                }
            },
        },
    }
}

/// Sum and count of present backlog counts of one office in the window.
fn backlog_sum_exec(v: &Vec<OperationsData>, o: i64, sy: i32, sm: i32, ey: i32, em: i32) -> (r: (
    i128,
    usize,
))
    ensures
        (r.0 as int, r.1 as int) == backlog_sum(
            v@,
            o as int,
            sy as int,
            sm as int,
            ey as int,
            em as int,
        ),
        -(r.1 as int) * 0x8000_0000 <= r.0 as int <= (r.1 as int) * 0x7fff_ffff,
{
    let mut sum: i128 = 0;
    let mut cnt: usize = 0;
    let mut i: usize = 0;
    while i < v.len()
        invariant
            i <= v@.len(),
            cnt <= i,
            (sum as int, cnt as int) == backlog_sum(
                v@.take(i as int),
                o as int,
                sy as int,
                sm as int,
                ey as int,
                em as int,
            ),
            -(cnt as int) * 0x8000_0000 <= sum as int <= (cnt as int) * 0x7fff_ffff,
        decreases v@.len() - i,
    {
        let ghost prefix = v@.take(i as int);
        let row = v[i];
        if row.office_id == o && (sy < row.year || (sy == row.year && sm <= row.month)) && (row.year
            < ey || (row.year == ey && row.month <= em)) {
            match row.backlog_case_count {
                Some(c) => {
                    sum = sum + c as i128;
                    cnt = cnt + 1;
                },
                None => {},
            }
        }
        proof {
            let next = v@.take(i as int + 1);
            assert(next.drop_last() =~= prefix);
            assert(next.last() == v@[i as int]);
        }
        i = i + 1;
    }
    proof {
        assert(v@.take(v@.len() as int) =~= v@);
    }
    (sum, cnt)
}

/// Percent of revenue as an exact rational, guarded against missing or
/// non-positive revenue.
fn pct_exec(rev: Option<i64>, num: Option<i64>) -> (r: Option<Rational>)
    ensures
        rat_matches(r, pct_from(rev, num)),
{
    match rev {
        Some(rv) => match num {
            Some(n) => {
                if rv > 0 {
                    Some(Rational { num: 100 * (n as i128), den: rv as i128 })
                } else {
                    None
                }
            },
            None => None,
        },
        None => None,
    }
}

/// Builds the dashboard summary of one office for a valid window.
fn office_summary(
    store: &Store,
    office: &Office,
    start_year: i32,
    start_month: i32,
    end_year: i32,
    end_month: i32,
) -> (s: OfficeSummary)
    requires
        store.wf(),
        month_valid(start_month as int),
        month_valid(end_month as int),
        period_le(start_year as int, start_month as int, end_year as int, end_month as int),
    ensures
        summary_matches(
            *store,
            *office,
            s,
            start_year as int,
            start_month as int,
            end_year as int,
            end_month as int,
        ),
{
    let o = office.office_id;
    let single = start_year == end_year && start_month == end_month;

    let revenue: Option<i128>;
    let lab_exp_percent: Option<Rational>;
    let personnel_percent: Option<Rational>;
    let overtime_percent: Option<Rational>;
    let has_financial: bool;
    let has_operations: bool;
    let backlog_count: Option<i32>;

    if single {
        let fin_row = store.get_monthly_financial(o, start_year, start_month);
        let (rev, lab, pers, ot, has) = match fin_row {
            None => (None, None, None, None, false),
            Some(r) => match (r.revenue, r.lab_exp_with_outside, r.personnel_exp, r.overtime_exp) {
                (Some(a), Some(b), Some(c), Some(d)) => (Some(a), Some(b), Some(c), Some(d), true),
                (Some(a), Some(b), Some(c), _) => (Some(a), Some(b), Some(c), None, true),
                (Some(a), Some(b), _, _) => (Some(a), Some(b), None, None, true),
                (Some(a), _, _, _) => (Some(a), None, None, None, true),
                _ => (None, None, None, None, false),
            },
        };
        has_financial = has;
        revenue = match rev {
            Some(v) => Some(v as i128),
            None => None,
        };
        lab_exp_percent = pct_exec(rev, lab);
        personnel_percent = pct_exec(rev, pers);
        overtime_percent = pct_exec(rev, ot);
        let ops_row = store.get_monthly_ops(o, start_year, start_month);
        backlog_count = match ops_row {
            Some(r) => r.backlog_case_count,
            None => None,
        };
        has_operations = matches!(backlog_count, Some(_));
    } else {
        has_financial = exists_in_window_exec(
            &store.financials,
            o,
            start_year,
            start_month,
            end_year,
            end_month,
        );
        let (rsum, rcnt) = crate::metrics::rev_sum_exec(
            &store.financials,
            o,
            start_year,
            start_month,
            end_year,
            end_month,
        );
        revenue = if rcnt == 0 {
            None
        } else {
            Some(rsum)
        };
        lab_exp_percent = None;
        personnel_percent = None;
        overtime_percent = None;
        let (bsum, bcnt) = backlog_sum_exec(
            &store.ops,
            o,
            start_year,
            start_month,
            end_year,
            end_month,
        );
        has_operations = bcnt != 0;
        if bcnt == 0 {
            backlog_count = None;
        } else {
            proof {
                lemma_rounded_ratio_bounds(
                    bsum as int,
                    bcnt as int,
                    -0x8000_0000,
                    0x7fff_ffff,
                );
            }
            let rounded = round_ratio(bsum, bcnt as i128);
            backlog_count = Some(rounded as i32);
        }
    }

    let has_volume = exists_in_window_exec(
        &store.volumes,
        o,
        start_year,
        start_month,
        end_year,
        end_month,
    );
    let has_notes = exists_in_window_exec(
        &store.notes,
        o,
        start_year,
        start_month,
        end_year,
        end_month,
    );

    let lf = latest_scan(&store.financials, o);
    let lo = latest_scan(&store.ops, o);
    let lv = latest_scan(&store.volumes, o);
    let ghost slf = latest_for(store.financials@, o as int);
    let ghost slo = latest_for(store.ops@, o as int);
    let ghost slv = latest_for(store.volumes@, o as int);
    let merged = merge_latest(lf, lo, Ghost(slf), Ghost(slo));
    let latest = merge_latest(merged, lv, Ghost(period_merge(slf, slo)), Ghost(slv));
    let (latest_year, latest_month) = match latest {
        Some(p) => (Some(p.0), Some(p.1)),
        None => (None, None),
    };

    OfficeSummary {
        office_id: o,
        office_name: office.office_name.clone(),
        model: office.model.clone(),
        dfo: clone_opt_string(&office.dfo),
        latest_month,
        latest_year,
        revenue,
        lab_exp_percent,
        personnel_percent,
        overtime_percent,
        backlog_count,
        has_financial,
        has_operations,
        has_volume,
        has_notes,
    }
}

/// One dashboard summary per office, ascending by office id; every
/// office appears exactly once, with or without data.  A malformed
/// window gives `InvalidRange`.
pub fn get_dashboard_data(
    store: &Store,
    start_year: i32,
    start_month: i32,
    end_year: i32,
    end_month: i32,
) -> (r: Result<Vec<OfficeSummary>, EngineError>)
    requires
        store.wf(),
        month_valid(start_month as int),
        month_valid(end_month as int),
    ensures
        match r {
            Ok(v) => {
                &&& period_le(
                    start_year as int,
                    start_month as int,
                    end_year as int,
                    end_month as int,
                )
                &&& v@.len() == store.offices@.len()
                &&& forall|i: int|
                    0 <= i < v@.len() ==> summary_matches(
                        *store,
                        store.offices@[i],
                        #[trigger] v@[i],
                        start_year as int,
                        start_month as int,
                        end_year as int,
                        end_month as int,
                    )
            },
            Err(e) => e == EngineError::InvalidRange && !period_le(
                start_year as int,
                start_month as int,
                end_year as int,
                end_month as int,
            ),
        },
{
    if !(start_year < end_year || (start_year == end_year && start_month <= end_month)) {
        return Err(EngineError::InvalidRange);
    }
    let mut out: Vec<OfficeSummary> = Vec::new();
    let mut i: usize = 0;
    while i < store.offices.len()
        invariant
            store.wf(),
            i <= store.offices@.len(),
            out@.len() == i,
            month_valid(start_month as int),
            month_valid(end_month as int),
            period_le(start_year as int, start_month as int, end_year as int, end_month as int),
            forall|x: int|
                0 <= x < i ==> summary_matches(
                    *store,
                    store.offices@[x],
                    #[trigger] out@[x],
                    start_year as int,
                    start_month as int,
                    end_year as int,
                    end_month as int,
                ),
        decreases store.offices@.len() - i,
    {
        let s = office_summary(
            store,
            &store.offices[i],
            start_year,
            start_month,
            end_year,
            end_month,
        );
        out.push(s);
        i = i + 1;
    }
    Ok(out)
}

} // verus!

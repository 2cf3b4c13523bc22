//! Row types of the engine, and the machinery shared by every keyed table.
//!
//! Monetary amounts are carried as integers in minor currency units; unit
//! counters are integers.  Each time-series row is keyed by a triple —
//! (office, year, month) for monthly tables, (office, year, week) for
//! weekly ones — and [`row_at`] is the mathematical lookup that every
//! table contract is phrased over.

use vstd::prelude::*;

use crate::period::{month_valid, week_valid};

verus! {

/// Largest unit count a weekly production counter may carry.  Keeps every
/// rollup sum and derived total well inside `i32`.
pub const MAX_UNITS: i32 = 100_000_000;

/// Largest magnitude of a monetary amount, in minor units.  Keeps sums
/// over any window well inside the arithmetic the engine performs.
pub const MAX_AMOUNT: i64 = 1_000_000_000_000_000;

/// A tracked lab office, keyed by an externally assigned integer id.
#[derive(Clone, Debug, PartialEq, Eq)]
pub struct Office {
    pub office_id: i64,
    pub office_name: String,
    pub model: String,
    pub address: Option<String>,
    pub phone: Option<String>,
    pub managing_dentist: Option<String>,
    pub dfo: Option<String>,
    pub standardization_status: Option<String>,
}

/// Row counts of the underlying tables, for the shell's status display.
#[derive(Clone, Copy, Debug, PartialEq, Eq)]
pub struct TableCounts {
    pub offices: i64,
    pub staff: i64,
    pub contacts: i64,
    pub financials: i64,
    pub ops: i64,
    pub volume: i64,
    pub notes: i64,
    pub alerts: i64,
}

/// Outcome counts of one bulk import run.
#[derive(Clone, Debug, PartialEq, Eq)]
pub struct ImportSummary {
    pub filename: String,
    pub rows_processed: usize,
    pub rows_inserted: usize,
    pub rows_updated: usize,
    pub warnings: Vec<String>,
}

/// One month of financial figures for an office; amounts in minor units,
/// absent where never reported.
#[derive(Clone, Copy, Debug, PartialEq, Eq)]
pub struct FinancialData {
    pub id: Option<i64>,
    pub office_id: i64,
    pub year: i32,
    pub month: i32,
    pub revenue: Option<i64>,
    pub lab_exp_no_outside: Option<i64>,
    pub lab_exp_with_outside: Option<i64>,
    pub outside_lab_spend: Option<i64>,
    pub teeth_supplies: Option<i64>,
    pub lab_supplies: Option<i64>,
    pub lab_hub: Option<i64>,
    pub lss_expense: Option<i64>,
    pub personnel_exp: Option<i64>,
    pub overtime_exp: Option<i64>,
    pub bonus_exp: Option<i64>,
}

/// One month of operations figures for an office.
#[derive(Clone, Copy, Debug, PartialEq, Eq)]
pub struct OperationsData {
    pub id: Option<i64>,
    pub office_id: i64,
    pub year: i32,
    pub month: i32,
    pub backlog_case_count: Option<i32>,
    pub overtime_value: Option<i64>,
    pub labor_model_value: Option<i64>,
}

/// One month of production-volume counters for an office, including the
/// derived backlog totals and the derived total of weekly units.
#[derive(Clone, Copy, Debug, PartialEq, Eq)]
pub struct VolumeData {
    pub id: Option<i64>,
    pub office_id: i64,
    pub year: i32,
    pub month: i32,
    pub backlog_in_lab: i32,
    pub backlog_in_clinic: i32,
    pub lab_setups: i32,
    pub lab_fixed_cases: i32,
    pub lab_over_denture: i32,
    pub lab_processes: i32,
    pub lab_finishes: i32,
    pub clinic_wax_tryin: i32,
    pub clinic_delivery: i32,
    pub clinic_outside_lab: i32,
    pub clinic_on_hold: i32,
    pub immediate_units: i32,
    pub economy_units: i32,
    pub economy_plus_units: i32,
    pub premium_units: i32,
    pub ultimate_units: i32,
    pub repair_units: i32,
    pub reline_units: i32,
    pub partial_units: i32,
    pub retry_units: i32,
    pub remake_units: i32,
    pub bite_block_units: i32,
    pub total_weekly_units: i32,
}

/// One week of production-volume counters for an office.
#[derive(Clone, Copy, Debug, PartialEq, Eq)]
pub struct WeeklyVolumeData {
    pub id: Option<i64>,
    pub office_id: i64,
    pub year: i32,
    pub week_number: i32,
    pub lab_setups: i32,
    pub lab_fixed_cases: i32,
    pub lab_over_denture: i32,
    pub lab_processes: i32,
    pub lab_finishes: i32,
    pub clinic_wax_tryin: i32,
    pub clinic_delivery: i32,
    pub clinic_outside_lab: i32,
    pub clinic_on_hold: i32,
    pub immediate_units: i32,
    pub economy_units: i32,
    pub economy_plus_units: i32,
    pub premium_units: i32,
    pub ultimate_units: i32,
    pub repair_units: i32,
    pub reline_units: i32,
    pub partial_units: i32,
    pub retry_units: i32,
    pub remake_units: i32,
    pub bite_block_units: i32,
}

/// Free-text note for one office and month.
#[derive(Clone, Debug, PartialEq, Eq)]
pub struct NotesAction {
    pub id: Option<i64>,
    pub office_id: i64,
    pub year: i32,
    pub month: i32,
    pub note_text: String,
}

/// Whether an office submitted its numbers for one week.
#[derive(Clone, Copy, Debug, PartialEq, Eq)]
pub struct SubmissionRecord {
    pub office_id: i64,
    pub year: i32,
    pub week_number: i32,
    pub submitted: bool,
}

/// A row addressed by an (office, year, period) key, where the period is a
/// month or a week number depending on the table.
pub trait KeyedRow: Sized {
    spec fn row_key(&self) -> (int, int, int);

    fn key_cols(&self) -> (k: (i64, i32, i32))
        ensures
            (k.0 as int, k.1 as int, k.2 as int) == self.row_key(),
    ;
}

impl KeyedRow for FinancialData {
    open spec fn row_key(&self) -> (int, int, int) {
        (self.office_id as int, self.year as int, self.month as int)
    }

    fn key_cols(&self) -> (k: (i64, i32, i32)) {
        (self.office_id, self.year, self.month)
    }
}

impl KeyedRow for OperationsData {
    open spec fn row_key(&self) -> (int, int, int) {
        (self.office_id as int, self.year as int, self.month as int)
    }

    fn key_cols(&self) -> (k: (i64, i32, i32)) {
        (self.office_id, self.year, self.month)
    }
}

impl KeyedRow for VolumeData {
    open spec fn row_key(&self) -> (int, int, int) {
        (self.office_id as int, self.year as int, self.month as int)
    }

    fn key_cols(&self) -> (k: (i64, i32, i32)) {
        (self.office_id, self.year, self.month)
    }
}

impl KeyedRow for WeeklyVolumeData {
    open spec fn row_key(&self) -> (int, int, int) {
        (self.office_id as int, self.year as int, self.week_number as int)
    }

    fn key_cols(&self) -> (k: (i64, i32, i32)) {
        (self.office_id, self.year, self.week_number)
    }
}

impl KeyedRow for NotesAction {
    open spec fn row_key(&self) -> (int, int, int) {
        (self.office_id as int, self.year as int, self.month as int)
    }

    fn key_cols(&self) -> (k: (i64, i32, i32)) {
        (self.office_id, self.year, self.month)
    }
}

impl KeyedRow for SubmissionRecord {
    open spec fn row_key(&self) -> (int, int, int) {
        (self.office_id as int, self.year as int, self.week_number as int)
    }

    fn key_cols(&self) -> (k: (i64, i32, i32)) {
        (self.office_id, self.year, self.week_number)
    }
}

/// First row of `s` carrying key `k`, if any.  Under [`unique_keys`] this
/// is the one row of the table with that key.
pub open spec fn row_at<T: KeyedRow>(s: Seq<T>, k: (int, int, int)) -> Option<T>
    decreases s.len(),
{
    if s.len() == 0 {
        None
    } else if s[0].row_key() == k {
        Some(s[0])
    } else {
        row_at(s.subrange(1, s.len() as int), k)
    }
}

/// No two rows of `s` share a key.
pub open spec fn unique_keys<T: KeyedRow>(s: Seq<T>) -> bool {
    forall|i: int, j: int| 0 <= i < j < s.len() ==> s[i].row_key() != s[j].row_key()
}

pub proof fn lemma_row_at_present<T: KeyedRow>(s: Seq<T>, i: int)
    requires
        0 <= i < s.len(),
        forall|j: int| 0 <= j < i ==> s[j].row_key() != s[i].row_key(),
    ensures
        row_at(s, s[i].row_key()) == Some(s[i]),
    decreases i,
{
    if i > 0 {
        let rest = s.subrange(1, s.len() as int);
        assert(rest[i - 1] == s[i]);
        assert forall|j: int| 0 <= j < i - 1 implies #[trigger] rest[j].row_key() != rest[i - 1].row_key() by {
            assert(rest[j] == s[j + 1]);
        }
        lemma_row_at_present(rest, i - 1);
    }
}

pub proof fn lemma_row_at_absent<T: KeyedRow>(s: Seq<T>, k: (int, int, int))
    requires
        forall|j: int| 0 <= j < s.len() ==> s[j].row_key() != k,
    ensures
        row_at(s, k) is None,
    decreases s.len(),
{
    if s.len() > 0 {
        let rest = s.subrange(1, s.len() as int);
        assert forall|j: int| 0 <= j < rest.len() implies #[trigger] rest[j].row_key() != k by {
            assert(rest[j] == s[j + 1]);
        }
        lemma_row_at_absent(rest, k);
    }
}

/// A present lookup names a row of the table; an absent one rules every
/// row out.
pub proof fn lemma_row_at_props<T: KeyedRow>(s: Seq<T>, k: (int, int, int))
    ensures
        row_at(s, k) is Some ==> exists|i: int|
            0 <= i < s.len() && s[i].row_key() == k && row_at(s, k) == Some(s[i]),
        row_at(s, k) is None ==> forall|i: int| 0 <= i < s.len() ==> s[i].row_key() != k,
    decreases s.len(),
{
    if s.len() > 0 {
        let rest = s.subrange(1, s.len() as int);
        lemma_row_at_props(rest, k);
        if s[0].row_key() != k {
            if row_at(s, k) is Some {
                let i = choose|i: int|
                    0 <= i < rest.len() && rest[i].row_key() == k && row_at(rest, k) == Some(
                        rest[i],
                    );
                assert(s[i + 1] == rest[i]);
            } else {
                assert forall|i: int| 0 <= i < s.len() implies #[trigger] s[i].row_key() != k by {
                    if i > 0 {
                        assert(s[i] == rest[i - 1]);
                    }
                }
            }
        }
    }
}

/// Replacing the row at `i` by one with the same key changes exactly that
/// key's lookup.
pub proof fn lemma_row_at_update<T: KeyedRow>(s: Seq<T>, i: int, r: T)
    requires
        unique_keys(s),
        0 <= i < s.len(),
        r.row_key() == s[i].row_key(),
    ensures
        unique_keys(s.update(i, r)),
        forall|k: (int, int, int)| #[trigger]
            row_at(s.update(i, r), k) == (if k == r.row_key() {
                Some(r)
            } else {
                row_at(s, k)
            }),
{
    let t = s.update(i, r);
    assert forall|k: (int, int, int)| #[trigger]
        row_at(t, k) == (if k == r.row_key() {
            Some(r)
        } else {
            row_at(s, k)
        }) by {
        if k == r.row_key() {
            assert forall|j: int| 0 <= j < i implies #[trigger] t[j].row_key() != t[i].row_key() by {
                assert(t[j] == s[j]);
            }
            lemma_row_at_present(t, i);
        } else {
            lemma_row_at_props(s, k);
            if row_at(s, k) is Some {
                let j = choose|j: int|
                    0 <= j < s.len() && s[j].row_key() == k && row_at(s, k) == Some(s[j]);
                assert(t[j] == s[j]);
                assert forall|l: int| 0 <= l < j implies #[trigger] t[l].row_key() != t[j].row_key() by {
                    if l != i {
                        assert(t[l] == s[l]);
                    }
                }
                lemma_row_at_present(t, j);
            } else {
                assert forall|j: int| 0 <= j < t.len() implies #[trigger] t[j].row_key() != k by {
                    if j != i {
                        assert(t[j] == s[j]);
                    }
                }
                lemma_row_at_absent(t, k);
            }
        }
    }
}

/// Appending a row with a fresh key changes exactly that key's lookup.
pub proof fn lemma_row_at_push<T: KeyedRow>(s: Seq<T>, r: T)
    requires
        unique_keys(s),
        row_at(s, r.row_key()) is None,
    ensures
        unique_keys(s.push(r)),
        forall|k: (int, int, int)| #[trigger]
            row_at(s.push(r), k) == (if k == r.row_key() {
                Some(r)
            } else {
                row_at(s, k)
            }),
{
    let t = s.push(r);
    lemma_row_at_props(s, r.row_key());
    assert forall|i: int, j: int| 0 <= i < j < t.len() implies #[trigger] t[i].row_key() != #[trigger] t[j].row_key() by {
        if j < t.len() - 1 {
            assert(t[i] == s[i] && t[j] == s[j]);
        } else {
            assert(t[i] == s[i] && t[j] == r);
        }
    }
    assert forall|k: (int, int, int)| #[trigger]
        row_at(t, k) == (if k == r.row_key() {
            Some(r)
        } else {
            row_at(s, k)
        }) by {
        if k == r.row_key() {
            assert forall|j: int| 0 <= j < s.len() implies #[trigger] t[j].row_key() != t[s.len() as int].row_key() by {
                assert(t[j] == s[j]);
            }
            assert(t[s.len() as int] == r);
            lemma_row_at_present(t, s.len() as int);
        } else {
            lemma_row_at_props(s, k);
            if row_at(s, k) is Some {
                let j = choose|j: int|
                    0 <= j < s.len() && s[j].row_key() == k && row_at(s, k) == Some(s[j]);
                assert(t[j] == s[j]);
                assert forall|l: int| 0 <= l < j implies #[trigger] t[l].row_key() != t[j].row_key() by {
                    assert(t[l] == s[l]);
                }
                lemma_row_at_present(t, j);
            } else {
                assert forall|j: int| 0 <= j < t.len() implies #[trigger] t[j].row_key() != k by {
                    if j < t.len() - 1 {
                        assert(t[j] == s[j]);
                    }
                }
                lemma_row_at_absent(t, k);
            }
        }
    }
}

/// Index of the first row with the given key, scanning from the front.
pub fn find_row<T: KeyedRow>(v: &Vec<T>, office_id: i64, year: i32, period: i32) -> (r: Option<
    usize,
>)
    ensures
        match r {
            Some(i) => i < v.len() && v@[i as int].row_key() == (
                office_id as int,
                year as int,
                period as int,
            ) && row_at(v@, (office_id as int, year as int, period as int)) == Some(v@[i as int]),
            None => row_at(v@, (office_id as int, year as int, period as int)) is None,
        },
{
    let mut i: usize = 0;
    while i < v.len()
        invariant
            i <= v.len(),
            forall|j: int| 0 <= j < i ==> #[trigger] v@[j].row_key() != (
                office_id as int,
                year as int,
                period as int,
            ),
        decreases v.len() - i,
    {
        let k = v[i].key_cols();
        if k.0 == office_id && k.1 == year && k.2 == period {
            proof {
                lemma_row_at_present(v@, i as int);
            }
            return Some(i);
        }
        i = i + 1;
    }
    proof {
        lemma_row_at_absent(v@, (office_id as int, year as int, period as int));
    }
    None
}

/// Well-formed financial row: valid month, amounts within bounds.
pub open spec fn amount_ok(a: Option<i64>) -> bool {
    match a {
        Some(x) => -MAX_AMOUNT <= x <= MAX_AMOUNT,
        None => true,
    }
}

pub open spec fn fin_row_wf(r: FinancialData) -> bool {
    &&& month_valid(r.month as int)
    &&& amount_ok(r.revenue)
    &&& amount_ok(r.lab_exp_no_outside)
    &&& amount_ok(r.lab_exp_with_outside)
    &&& amount_ok(r.outside_lab_spend)
    &&& amount_ok(r.teeth_supplies)
    &&& amount_ok(r.lab_supplies)
    &&& amount_ok(r.lab_hub)
    &&& amount_ok(r.lss_expense)
    &&& amount_ok(r.personnel_exp)
    &&& amount_ok(r.overtime_exp)
    &&& amount_ok(r.bonus_exp)
}

pub open spec fn ops_row_wf(r: OperationsData) -> bool {
    month_valid(r.month as int)
}

pub open spec fn vol_row_wf(r: VolumeData) -> bool {
    month_valid(r.month as int)
}

/// Index-addressed view of the twenty weekly production counters, in
/// column order: the five lab stages, the four clinic stages, then the
/// eleven unit types.
pub open spec fn weekly_counter(r: WeeklyVolumeData, j: int) -> int {
    if j == 0 {
        r.lab_setups as int
    } else if j == 1 {
        r.lab_fixed_cases as int
    } else if j == 2 {
        r.lab_over_denture as int
    } else if j == 3 {
        r.lab_processes as int
    } else if j == 4 {
        r.lab_finishes as int
    } else if j == 5 {
        r.clinic_wax_tryin as int
    } else if j == 6 {
        r.clinic_delivery as int
    } else if j == 7 {
        r.clinic_outside_lab as int
    } else if j == 8 {
        r.clinic_on_hold as int
    } else if j == 9 {
        r.immediate_units as int
    } else if j == 10 {
        r.economy_units as int
    } else if j == 11 {
        r.economy_plus_units as int
    } else if j == 12 {
        r.premium_units as int
    } else if j == 13 {
        r.ultimate_units as int
    } else if j == 14 {
        r.repair_units as int
    } else if j == 15 {
        r.reline_units as int
    } else if j == 16 {
        r.partial_units as int
    } else if j == 17 {
        r.retry_units as int
    } else if j == 18 {
        r.remake_units as int
    } else {
        r.bite_block_units as int
    }
}

pub open spec fn weekly_row_wf(r: WeeklyVolumeData) -> bool {
    &&& week_valid(r.week_number as int)
    &&& forall|j: int| 0 <= j < 20 ==> 0 <= #[trigger] weekly_counter(r, j) <= MAX_UNITS
}

pub open spec fn note_row_wf(r: NotesAction) -> bool {
    month_valid(r.month as int)
}

pub open spec fn sub_row_wf(r: SubmissionRecord) -> bool {
    week_valid(r.week_number as int)
}

/// Two optional strings hold the same text.
pub open spec fn opt_str_eqv(a: Option<String>, b: Option<String>) -> bool {
    match a {
        Some(x) => match b {
            Some(y) => x@ == y@,
            None => false,
        },
        None => b is None,
    }
}

/// Copies an optional string, preserving its text.
pub fn clone_opt_string(o: &Option<String>) -> (r: Option<String>)
    ensures
        opt_str_eqv(r, *o),
{
    match o {
        Some(s) => Some(s.clone()),
        None => None,
    }
}

/// Counter `j` of a weekly row, as executable code.
pub fn weekly_counter_get(r: &WeeklyVolumeData, j: usize) -> (c: i32)
    requires
        j < 20,
    ensures
        c as int == weekly_counter(*r, j as int),
{
    if j == 0 {
        r.lab_setups
    } else if j == 1 {
        r.lab_fixed_cases
    } else if j == 2 {
        r.lab_over_denture
    } else if j == 3 {
        r.lab_processes
    } else if j == 4 {
        r.lab_finishes
    } else if j == 5 {
        r.clinic_wax_tryin
    } else if j == 6 {
        r.clinic_delivery
    } else if j == 7 {
        r.clinic_outside_lab
    } else if j == 8 {
        r.clinic_on_hold
    } else if j == 9 {
        r.immediate_units
    } else if j == 10 {
        r.economy_units
    } else if j == 11 {
        r.economy_plus_units
    } else if j == 12 {
        r.premium_units
    } else if j == 13 {
        r.ultimate_units
    } else if j == 14 {
        r.repair_units
    } else if j == 15 {
        r.reline_units
    } else if j == 16 {
        r.partial_units
    } else if j == 17 {
        r.retry_units
    } else if j == 18 {
        r.remake_units
    } else {
        r.bite_block_units
    }
}

} // verus!

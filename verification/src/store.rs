//! The in-memory store the engine computes over: one vector per table,
//! with key uniqueness and row well-formedness as the store invariant.
//!
//! The surrounding application owns persistence; it fills a [`Store`]
//! from its database, runs the engine, and writes results back.  Every
//! read and write here is specified through [`row_at`], the mathematical
//! lookup of a keyed table.

use vstd::prelude::*;

use crate::period::{month_valid, spec_week_start, spec_week_end};
use crate::records::{
    Office, FinancialData, OperationsData, VolumeData, WeeklyVolumeData, NotesAction,
    SubmissionRecord, KeyedRow, row_at, unique_keys, find_row, fin_row_wf, ops_row_wf, vol_row_wf,
    weekly_row_wf, note_row_wf, sub_row_wf, lemma_row_at_present, lemma_row_at_absent,
    lemma_row_at_props, lemma_row_at_update, lemma_row_at_push,
};

verus! {

/// An office participates in the keyed-row machinery under the key
/// (office_id, 0, 0): offices are keyed by their id alone.
impl KeyedRow for Office {
    open spec fn row_key(&self) -> (int, int, int) {
        (self.office_id as int, 0, 0)
    }

    fn key_cols(&self) -> (k: (i64, i32, i32)) {
        (self.office_id, 0, 0)
    }
}

pub open spec fn office_key(id: int) -> (int, int, int) {
    (id, 0, 0)
}

/// Strict lexicographic order on row keys.
pub open spec fn key_lt(a: (int, int, int), b: (int, int, int)) -> bool {
    a.0 < b.0 || (a.0 == b.0 && (a.1 < b.1 || (a.1 == b.1 && a.2 < b.2)))
}

pub open spec fn offices_sorted(s: Seq<Office>) -> bool {
    forall|i: int, j: int|
        0 <= i < j < s.len() ==> #[trigger] s[i].office_id < #[trigger] s[j].office_id
}

pub open spec fn subs_sorted(s: Seq<SubmissionRecord>) -> bool {
    forall|i: int, j: int|
        0 <= i < j < s.len() ==> key_lt(#[trigger] s[i].row_key(), #[trigger] s[j].row_key())
}

pub proof fn lemma_offices_sorted_unique(s: Seq<Office>)
    requires
        offices_sorted(s),
    ensures
        unique_keys(s),
{
}

pub proof fn lemma_subs_sorted_unique(s: Seq<SubmissionRecord>)
    requires
        subs_sorted(s),
    ensures
        unique_keys(s),
{
    assert forall|i: int, j: int| 0 <= i < j < s.len() implies #[trigger] s[i].row_key()
        != #[trigger] s[j].row_key() by {
        assert(key_lt(s[i].row_key(), s[j].row_key()));
    }
}

/// Inserting a row with a fresh key at any position changes exactly that
/// key's lookup.
pub proof fn lemma_row_at_insert<T: KeyedRow>(s: Seq<T>, i: int, r: T)
    requires
        unique_keys(s),
        0 <= i <= s.len(),
        row_at(s, r.row_key()) is None,
    ensures
        unique_keys(s.insert(i, r)),
        forall|k: (int, int, int)| #[trigger]
            row_at(s.insert(i, r), k) == (if k == r.row_key() {
                Some(r)
            } else {
                row_at(s, k)
            }),
{
    let t = s.insert(i, r);
    lemma_row_at_props(s, r.row_key());
    assert forall|a: int, b: int| 0 <= a < b < t.len() implies #[trigger] t[a].row_key()
        != #[trigger] t[b].row_key() by {
        let sa = if a < i {
            s[a]
        } else if a == i {
            r
        } else {
            s[a - 1]
        };
        let sb = if b < i {
            s[b]
        } else if b == i {
            r
        } else {
            s[b - 1]
        };
        assert(t[a] == sa && t[b] == sb);
    }
    assert forall|k: (int, int, int)| #[trigger]
        row_at(t, k) == (if k == r.row_key() {
            Some(r)
        } else {
            row_at(s, k)
        }) by {
        if k == r.row_key() {
            assert forall|j: int| 0 <= j < i implies #[trigger] t[j].row_key() != t[i].row_key() by {
                assert(t[j] == s[j]);
            }
            assert(t[i] == r);
            lemma_row_at_present(t, i);
        } else {
            lemma_row_at_props(s, k);
            if row_at(s, k) is Some {
                let j = choose|j: int|
                    0 <= j < s.len() && s[j].row_key() == k && row_at(s, k) == Some(s[j]);
                let j2 = if j < i {
                    j
                } else {
                    j + 1
                };
                assert(t[j2] == s[j]);
                assert forall|l: int| 0 <= l < j2 implies #[trigger] t[l].row_key()
                    != t[j2].row_key() by {
                    if l < i {
                        assert(t[l] == s[l]);
                    } else if l == i {
                        assert(t[l] == r);
                    } else {
                        assert(t[l] == s[l - 1]);
                    }
                }
                lemma_row_at_present(t, j2);
            } else {
                assert forall|j: int| 0 <= j < t.len() implies #[trigger] t[j].row_key() != k by {
                    if j < i {
                        assert(t[j] == s[j]);
                    } else if j == i {
                        assert(t[j] == r);
                    } else {
                        assert(t[j] == s[j - 1]);
                    }
                }
                lemma_row_at_absent(t, k);
            }
        }
    }
}

/// The weekly rows of one office and year whose week number lies in
/// `[ws, we]`, in ascending week order; a present week contributes its
/// unique row.
pub open spec fn weeks_in_range(
    s: Seq<WeeklyVolumeData>,
    o: int,
    y: int,
    ws: int,
    we: int,
) -> Seq<WeeklyVolumeData>
    decreases we - ws + 1,
{
    if ws > we {
        Seq::empty()
    } else {
        weeks_in_range(s, o, y, ws, we - 1) + (match row_at(s, (o, y, we)) {
            Some(r) => seq![r],
            None => Seq::<WeeklyVolumeData>::empty(),
        })
    }
}

/// The submission rows of one office, in table order.
pub open spec fn subs_of(s: Seq<SubmissionRecord>, o: int) -> Seq<SubmissionRecord>
    decreases s.len(),
{
    if s.len() == 0 {
        Seq::empty()
    } else {
        subs_of(s.drop_last(), o) + (if s.last().office_id as int == o {
            seq![s.last()]
        } else {
            Seq::<SubmissionRecord>::empty()
        })
    }
}

/// The whole table set.  Tables are plain vectors; [`Store::wf`] keeps
/// their keys unique, their offices and submissions sorted, and their
/// rows well formed.
pub struct Store {
    pub offices: Vec<Office>,
    pub financials: Vec<FinancialData>,
    pub ops: Vec<OperationsData>,
    pub volumes: Vec<VolumeData>,
    pub weekly: Vec<WeeklyVolumeData>,
    pub notes: Vec<NotesAction>,
    pub submissions: Vec<SubmissionRecord>,
}

impl Store {
    pub open spec fn wf(self) -> bool {
        &&& offices_sorted(self.offices@)
        &&& unique_keys(self.financials@)
        &&& forall|i: int| 0 <= i < self.financials@.len() ==> fin_row_wf(#[trigger] self.financials@[i])
        &&& unique_keys(self.ops@)
        &&& forall|i: int| 0 <= i < self.ops@.len() ==> ops_row_wf(#[trigger] self.ops@[i])
        &&& unique_keys(self.volumes@)
        &&& forall|i: int| 0 <= i < self.volumes@.len() ==> vol_row_wf(#[trigger] self.volumes@[i])
        &&& unique_keys(self.weekly@)
        &&& forall|i: int| 0 <= i < self.weekly@.len() ==> weekly_row_wf(#[trigger] self.weekly@[i])
        &&& unique_keys(self.notes@)
        &&& forall|i: int| 0 <= i < self.notes@.len() ==> note_row_wf(#[trigger] self.notes@[i])
        &&& subs_sorted(self.submissions@)
        &&& forall|i: int|
            0 <= i < self.submissions@.len() ==> sub_row_wf(#[trigger] self.submissions@[i])
    }

    /// An empty store.
    pub fn new() -> (s: Store)
        ensures
            s.wf(),
            s.offices@.len() == 0,
            s.financials@.len() == 0,
            s.ops@.len() == 0,
            s.volumes@.len() == 0,
            s.weekly@.len() == 0,
            s.notes@.len() == 0,
            s.submissions@.len() == 0,
    {
        Store {
            offices: Vec::new(),
            financials: Vec::new(),
            ops: Vec::new(),
            volumes: Vec::new(),
            weekly: Vec::new(),
            notes: Vec::new(),
            submissions: Vec::new(),
        }
    }

    /// All offices, ascending by office id.
    pub fn list_offices(&self) -> (r: &Vec<Office>)
        ensures
            r == &self.offices,
    {
        &self.offices
    }

    /// Inserts a new office or replaces the one with the same id.
    pub fn upsert_office(&mut self, office: Office)
        requires
            old(self).wf(),
        ensures
            final(self).wf(),
            final(self).financials == old(self).financials,
            final(self).ops == old(self).ops,
            final(self).volumes == old(self).volumes,
            final(self).weekly == old(self).weekly,
            final(self).notes == old(self).notes,
            final(self).submissions == old(self).submissions,
            forall|k: (int, int, int)| #[trigger]
                row_at(final(self).offices@, k) == (if k == office_key(office.office_id as int) {
                    Some(office)
                } else {
                    row_at(old(self).offices@, k)
                }),
    {
        proof {
            lemma_offices_sorted_unique(self.offices@);
        }
        let ghost key = office.row_key();
        let mut i: usize = 0;
        while i < self.offices.len() && self.offices[i].office_id < office.office_id
            invariant
                i <= self.offices@.len(),
                forall|j: int|
                    0 <= j < i ==> #[trigger] self.offices@[j].office_id < office.office_id,
            decreases self.offices@.len() - i,
        {
            i = i + 1;
        }
        if i < self.offices.len() && self.offices[i].office_id == office.office_id {
            proof {
                lemma_row_at_update(self.offices@, i as int, office);
            }
            self.offices[i] = office;
        } else {
            proof {
                assert forall|j: int| 0 <= j < self.offices@.len() implies #[trigger] self
                    .offices@[j].row_key() != key by {
                    if j < i {
                    } else if j == i {
                    } else {
                        assert(self.offices@[i as int].office_id < self.offices@[j].office_id);
                    }
                }
                lemma_row_at_absent(self.offices@, key);
                lemma_row_at_insert(self.offices@, i as int, office);
            }
            self.offices.insert(i, office);
        }
        proof {
            assert forall|a: int, b: int| 0 <= a < b < self.offices@.len() implies #[trigger] self
                .offices@[a].office_id < #[trigger] self.offices@[b].office_id by {
            }
        }
    }

    /// The office with the given id, if present.
    pub fn get_office(&self, office_id: i64) -> (r: Option<&Office>)
        ensures
            match r {
                Some(o) => row_at(self.offices@, office_key(office_id as int)) == Some(*o),
                None => row_at(self.offices@, office_key(office_id as int)) is None,
            },
    {
        match find_row(&self.offices, office_id, 0, 0) {
            Some(i) => Some(&self.offices[i]),
            None => None,
        }
    }

    /// The financial row of one office and month, if present.
    pub fn get_monthly_financial(&self, office_id: i64, year: i32, month: i32) -> (r: Option<
        FinancialData,
    >)
        ensures
            r == row_at(self.financials@, (office_id as int, year as int, month as int)),
    {
        match find_row(&self.financials, office_id, year, month) {
            Some(i) => Some(self.financials[i]),
            None => None,
        }
    }

    /// Inserts or replaces the financial row for the row's key, keeping
    /// the stored row id of an existing row: last write wins.
    pub fn upsert_monthly_financial(&mut self, row: FinancialData)
        requires
            old(self).wf(),
            fin_row_wf(row),
        ensures
            final(self).wf(),
            final(self).offices == old(self).offices,
            final(self).ops == old(self).ops,
            final(self).volumes == old(self).volumes,
            final(self).weekly == old(self).weekly,
            final(self).notes == old(self).notes,
            final(self).submissions == old(self).submissions,
            final(self).financials@.len() == old(self).financials@.len() + (if row_at(
                old(self).financials@,
                row.row_key(),
            ) is Some {
                0int
            } else {
                1int
            }),
            forall|k: (int, int, int)| #[trigger]
                row_at(final(self).financials@, k) == (if k == row.row_key() {
                    Some(spec_fin_merge(row_at(old(self).financials@, k), row))
                } else {
                    row_at(old(self).financials@, k)
                }),
    {
        match find_row(&self.financials, row.office_id, row.year, row.month) {
            Some(i) => {
                let merged = FinancialData { id: self.financials[i].id, ..row };
                proof {
                    lemma_row_at_update(self.financials@, i as int, merged);
                }
                self.financials[i] = merged;
            },
            None => {
                proof {
                    lemma_row_at_push(self.financials@, row);
                }
                self.financials.push(row);
            },
        }
    }

    /// The operations row of one office and month, if present.
    pub fn get_monthly_ops(&self, office_id: i64, year: i32, month: i32) -> (r: Option<
        OperationsData,
    >)
        ensures
            r == row_at(self.ops@, (office_id as int, year as int, month as int)),
    {
        match find_row(&self.ops, office_id, year, month) {
            Some(i) => Some(self.ops[i]),
            None => None,
        }
    }

    /// Inserts or replaces the operations row for the row's key, keeping
    /// the stored row id of an existing row.
    pub fn upsert_monthly_ops(&mut self, row: OperationsData)
        requires
            old(self).wf(),
            ops_row_wf(row),
        ensures
            final(self).wf(),
            final(self).offices == old(self).offices,
            final(self).financials == old(self).financials,
            final(self).volumes == old(self).volumes,
            final(self).weekly == old(self).weekly,
            final(self).notes == old(self).notes,
            final(self).submissions == old(self).submissions,
            forall|k: (int, int, int)| #[trigger]
                row_at(final(self).ops@, k) == (if k == row.row_key() {
                    Some(spec_ops_merge(row_at(old(self).ops@, k), row))
                } else {
                    row_at(old(self).ops@, k)
                }),
    {
        match find_row(&self.ops, row.office_id, row.year, row.month) {
            Some(i) => {
                let merged = OperationsData { id: self.ops[i].id, ..row };
                proof {
                    lemma_row_at_update(self.ops@, i as int, merged);
                }
                self.ops[i] = merged;
            },
            None => {
                proof {
                    lemma_row_at_push(self.ops@, row);
                }
                self.ops.push(row);
            },
        }
    }

    /// The monthly volume row of one office and month, if present.
    pub fn get_monthly_volume(&self, office_id: i64, year: i32, month: i32) -> (r: Option<
        VolumeData,
    >)
        ensures
            r == row_at(self.volumes@, (office_id as int, year as int, month as int)),
    {
        match find_row(&self.volumes, office_id, year, month) {
            Some(i) => Some(self.volumes[i]),
            None => None,
        }
    }

    /// Inserts or replaces the monthly volume row for the row's key,
    /// keeping the stored row id of an existing row.
    pub fn upsert_monthly_volume(&mut self, row: VolumeData)
        requires
            old(self).wf(),
            vol_row_wf(row),
        ensures
            final(self).wf(),
            final(self).offices == old(self).offices,
            final(self).financials == old(self).financials,
            final(self).ops == old(self).ops,
            final(self).weekly == old(self).weekly,
            final(self).notes == old(self).notes,
            final(self).submissions == old(self).submissions,
            forall|k: (int, int, int)| #[trigger]
                row_at(final(self).volumes@, k) == (if k == row.row_key() {
                    Some(spec_vol_merge(row_at(old(self).volumes@, k), row))
                } else {
                    row_at(old(self).volumes@, k)
                }),
    {
        match find_row(&self.volumes, row.office_id, row.year, row.month) {
            Some(i) => {
                let merged = VolumeData { id: self.volumes[i].id, ..row };
                proof {
                    lemma_row_at_update(self.volumes@, i as int, merged);
                }
                self.volumes[i] = merged;
            },
            None => {
                proof {
                    lemma_row_at_push(self.volumes@, row);
                }
                self.volumes.push(row);
            },
        }
    }

    /// The weekly volume row of one office, year and week, if present.
    pub fn get_weekly(&self, office_id: i64, year: i32, week_number: i32) -> (r: Option<
        WeeklyVolumeData,
    >)
        ensures
            r == row_at(self.weekly@, (office_id as int, year as int, week_number as int)),
    {
        match find_row(&self.weekly, office_id, year, week_number) {
            Some(i) => Some(self.weekly[i]),
            None => None,
        }
    }

    /// Adds a weekly row unless one with the same key already exists:
    /// weekly rows are immutable once imported, duplicates are skipped.
    pub fn insert_weekly(&mut self, row: WeeklyVolumeData) -> (added: bool)
        requires
            old(self).wf(),
            weekly_row_wf(row),
        ensures
            final(self).wf(),
            final(self).offices == old(self).offices,
            final(self).financials == old(self).financials,
            final(self).ops == old(self).ops,
            final(self).volumes == old(self).volumes,
            final(self).notes == old(self).notes,
            final(self).submissions == old(self).submissions,
            added == (row_at(old(self).weekly@, row.row_key()) is None),
            !added ==> final(self).weekly == old(self).weekly,
            final(self).weekly@.len() == old(self).weekly@.len() + (if added {
                1int
            } else {
                0int
            }),
            forall|k: (int, int, int)| #[trigger]
                row_at(final(self).weekly@, k) == (if k == row.row_key() && row_at(
                    old(self).weekly@,
                    row.row_key(),
                ) is None {
                    Some(row)
                } else {
                    row_at(old(self).weekly@, k)
                }),
    {
        match find_row(&self.weekly, row.office_id, row.year, row.week_number) {
            Some(_) => false,
            None => {
                proof {
                    lemma_row_at_push(self.weekly@, row);
                }
                self.weekly.push(row);
                true
            },
        }
    }

    /// The note of one office and month, if present.
    pub fn get_note(&self, office_id: i64, year: i32, month: i32) -> (r: Option<&NotesAction>)
        ensures
            match r {
                Some(n) => row_at(self.notes@, (office_id as int, year as int, month as int))
                    == Some(*n),
                None => row_at(self.notes@, (office_id as int, year as int, month as int)) is None,
            },
    {
        match find_row(&self.notes, office_id, year, month) {
            Some(i) => Some(&self.notes[i]),
            None => None,
        }
    }

    /// Inserts or replaces the note for the row's key, keeping the stored
    /// row id of an existing row.
    pub fn upsert_note(&mut self, row: NotesAction)
        requires
            old(self).wf(),
            note_row_wf(row),
        ensures
            final(self).wf(),
            final(self).offices == old(self).offices,
            final(self).financials == old(self).financials,
            final(self).ops == old(self).ops,
            final(self).volumes == old(self).volumes,
            final(self).weekly == old(self).weekly,
            final(self).submissions == old(self).submissions,
            forall|k: (int, int, int)| #[trigger]
                row_at(final(self).notes@, k) == (if k == row.row_key() {
                    Some(spec_note_merge(row_at(old(self).notes@, k), row))
                } else {
                    row_at(old(self).notes@, k)
                }),
    {
        match find_row(&self.notes, row.office_id, row.year, row.month) {
            Some(i) => {
                let merged = NotesAction { id: self.notes[i].id, ..row };
                proof {
                    lemma_row_at_update(self.notes@, i as int, merged);
                }
                self.notes[i] = merged;
            },
            None => {
                proof {
                    lemma_row_at_push(self.notes@, row);
                }
                self.notes.push(row);
            },
        }
    }

    /// Inserts or replaces the submission flag for one office and week,
    /// keeping the table sorted by (office, year, week).
    pub fn upsert_submission(&mut self, row: SubmissionRecord)
        requires
            old(self).wf(),
            sub_row_wf(row),
        ensures
            final(self).wf(),
            final(self).offices == old(self).offices,
            final(self).financials == old(self).financials,
            final(self).ops == old(self).ops,
            final(self).volumes == old(self).volumes,
            final(self).weekly == old(self).weekly,
            final(self).notes == old(self).notes,
            forall|k: (int, int, int)| #[trigger]
                row_at(final(self).submissions@, k) == (if k == row.row_key() {
                    Some(row)
                } else {
                    row_at(old(self).submissions@, k)
                }),
    {
        proof {
            lemma_subs_sorted_unique(self.submissions@);
        }
        let ghost key = row.row_key();
        let mut i: usize = 0;
        loop
            invariant_except_break
                i <= self.submissions@.len(),
                forall|j: int|
                    0 <= j < i ==> key_lt(#[trigger] self.submissions@[j].row_key(), key),
                key == row.row_key(),
            ensures
                i <= self.submissions@.len(),
                forall|j: int|
                    0 <= j < i ==> key_lt(#[trigger] self.submissions@[j].row_key(), key),
                i < self.submissions@.len() ==> !key_lt(self.submissions@[i as int].row_key(), key),
            decreases self.submissions@.len() - i,
        {
            if i == self.submissions.len() {
                break ;
            }
            let c = self.submissions[i].key_cols();
            if !(c.0 < row.office_id || (c.0 == row.office_id && (c.1 < row.year || (c.1 == row.year
                && c.2 < row.week_number)))) {
                break ;
            }
            i = i + 1;
        }
        let mut replace = false;
        if i < self.submissions.len() {
            let c = self.submissions[i].key_cols();
            if c.0 == row.office_id && c.1 == row.year && c.2 == row.week_number {
                replace = true;
            }
        }
        if replace {
            proof {
                lemma_row_at_update(self.submissions@, i as int, row);
            }
            self.submissions[i] = row;
            proof {
                assert forall|a: int, b: int| 0 <= a < b < self.submissions@.len() implies key_lt(
                    #[trigger] self.submissions@[a].row_key(),
                    #[trigger] self.submissions@[b].row_key(),
                ) by {
                }
            }
        } else {
            proof {
                assert forall|j: int| 0 <= j < self.submissions@.len() implies #[trigger] self
                    .submissions@[j].row_key() != key by {
                    if j < i {
                    } else if j == i {
                    } else {
                        assert(key_lt(self.submissions@[i as int].row_key(),
                            self.submissions@[j].row_key()));
                    }
                }
                lemma_row_at_absent(self.submissions@, key);
                lemma_row_at_insert(self.submissions@, i as int, row);
            }
            self.submissions.insert(i, row);
            proof {
                assert forall|a: int, b: int| 0 <= a < b < self.submissions@.len() implies key_lt(
                    #[trigger] self.submissions@[a].row_key(),
                    #[trigger] self.submissions@[b].row_key(),
                ) by {
                }
            }
        }
    }

    /// The submission series of one office, in chronological table order.
    pub fn list_submission_compliance(&self, office_id: i64) -> (r: Vec<SubmissionRecord>)
        ensures
            r@ == subs_of(self.submissions@, office_id as int),
    {
        let mut r: Vec<SubmissionRecord> = Vec::new();
        let mut i: usize = 0;
        while i < self.submissions.len()
            invariant
                i <= self.submissions@.len(),
                r@ == subs_of(self.submissions@.take(i as int), office_id as int),
            decreases self.submissions@.len() - i,
        {
            let ghost prefix = self.submissions@.take(i as int);
            let row = self.submissions[i];
            if row.office_id == office_id {
                r.push(row);
            }
            proof {
                let next = self.submissions@.take(i as int + 1);
                assert(next.drop_last() =~= prefix);
                assert(next.last() == self.submissions@[i as int]);
            }
            i = i + 1;
        }
        proof {
            assert(self.submissions@.take(self.submissions@.len() as int) =~= self.submissions@);
        }
        r
    }

    /// The weekly rows of one office and year with week numbers in
    /// `[week_start, week_end]`, ascending by week.
    pub fn list_weekly_volume(
        &self,
        office_id: i64,
        year: i32,
        week_start: i32,
        week_end: i32,
    ) -> (r: Vec<WeeklyVolumeData>)
        ensures
            r@ == weeks_in_range(
                self.weekly@,
                office_id as int,
                year as int,
                week_start as int,
                week_end as int,
            ),
    {
        let mut r: Vec<WeeklyVolumeData> = Vec::new();
        if week_start > week_end {
            return r;
        }
        let mut wk: i32 = week_start;
        loop
            invariant_except_break
                week_start <= wk <= week_end,
                r@ == weeks_in_range(
                    self.weekly@,
                    office_id as int,
                    year as int,
                    week_start as int,
                    wk as int - 1,
                ),
            ensures
                r@ == weeks_in_range(
                    self.weekly@,
                    office_id as int,
                    year as int,
                    week_start as int,
                    week_end as int,
                ),
            decreases week_end - wk,
        {
            match self.get_weekly(office_id, year, wk) {
                Some(row) => {
                    r.push(row);
                },
                None => {},
            }
            if wk == week_end {
                break ;
            }
            wk = wk + 1;
        }
        r
    }

    /// The weekly rows backing one office's month, ascending by week.
    pub fn weekly_records_for_month(&self, office_id: i64, year: i32, month: i32) -> (r: Vec<
        WeeklyVolumeData,
    >)
        requires
            month_valid(month as int),
        ensures
            r@ == weeks_in_range(
                self.weekly@,
                office_id as int,
                year as int,
                spec_week_start(month as int),
                spec_week_end(month as int),
            ),
    {
        let (ws, we) = crate::period::month_to_week_range(month);
        self.list_weekly_volume(office_id, year, ws, we)
    }
}

/// Last-write-wins merge of a financial upsert: all fields from the new
/// row, the stored id from the existing one.
pub open spec fn spec_fin_merge(prev: Option<FinancialData>, row: FinancialData) -> FinancialData {
    match prev {
        Some(p) => FinancialData { id: p.id, ..row },
        None => row,
    }
}

pub open spec fn spec_ops_merge(prev: Option<OperationsData>, row: OperationsData) -> OperationsData {
    match prev {
        Some(p) => OperationsData { id: p.id, ..row },
        None => row,
    }
}

pub open spec fn spec_vol_merge(prev: Option<VolumeData>, row: VolumeData) -> VolumeData {
    match prev {
        Some(p) => VolumeData { id: p.id, ..row },
        None => row,
    }
}

pub open spec fn spec_note_merge(prev: Option<NotesAction>, row: NotesAction) -> NotesAction {
    match prev {
        Some(p) => NotesAction { id: p.id, ..row },
        None => row,
    }
}

} // verus!

//! Compliance analyzer: submission-compliance rate, current and longest
//! streaks, and a capped recent-history window for one office's weekly
//! submission series.
//!
//! The series is the office's whole history, in chronological order; the
//! recent-history window keeps only weeks corroborated by a weekly
//! production row, at most ten of them, newest last.  An office with no
//! submission rows produces no report at all.

use vstd::prelude::*;

use crate::records::{SubmissionRecord, WeeklyVolumeData, KeyedRow, row_at};
use crate::store::{Store, subs_of};
use crate::value::{Rational, rat_wf};

verus! {

/// Number of submitted weeks in a series.
pub open spec fn submitted_count(s: Seq<SubmissionRecord>) -> int
    decreases s.len(),
{
    if s.len() == 0 {
        0
    } else {
        submitted_count(s.drop_last()) + if s.last().submitted {
            1int
        } else {
            0int
        }
    }
}

/// Length of the run of submitted weeks ending at the most recent entry.
pub open spec fn current_streak_of(s: Seq<SubmissionRecord>) -> int
    decreases s.len(),
{
    if s.len() == 0 || !s.last().submitted {
        0
    } else {
        1 + current_streak_of(s.drop_last())
    }
}

/// Length of the longest run of submitted weeks anywhere in the series:
/// the longest run in any prefix is the longer of the longest run in the
/// shorter prefix and the run ending at the prefix's last entry.
pub open spec fn longest_streak_of(s: Seq<SubmissionRecord>) -> int
    decreases s.len(),
{
    if s.len() == 0 {
        0
    } else {
        let prev = longest_streak_of(s.drop_last());
        let cur = current_streak_of(s);
        if cur > prev {
            cur
        } else {
            prev
        }
    }
}

/// A submission week is corroborated when a weekly production row exists
/// for the same office, year and week.
pub open spec fn corroborated(r: SubmissionRecord, w: Seq<WeeklyVolumeData>) -> bool {
    row_at(w, r.row_key()) is Some
}

/// The last (up to) `k` corroborated entries of the series, in
/// chronological order.
pub open spec fn recent_subs(s: Seq<SubmissionRecord>, w: Seq<WeeklyVolumeData>, k: nat) -> Seq<
    SubmissionRecord,
>
    decreases s.len(),
{
    if s.len() == 0 || k == 0 {
        Seq::empty()
    } else if corroborated(s.last(), w) {
        recent_subs(s.drop_last(), w, (k - 1) as nat) + seq![s.last()]
    } else {
        recent_subs(s.drop_last(), w, k)
    }
}

/// The compliance report of one office.
pub struct ComplianceReport {
    pub office_id: i64,
    pub total_weeks: usize,
    pub submitted_weeks: usize,
    pub compliance_rate: Rational,
    pub current_streak: usize,
    pub longest_streak: usize,
    pub recent_submissions: Vec<SubmissionRecord>,
}

/// Analyzes one office's submission series: compliance rate over all
/// known weeks, current streak counted backward from the newest week,
/// longest streak anywhere, and the capped corroborated recent history.
/// An office with an empty series yields no report.
pub fn analyze_compliance(store: &Store, office_id: i64) -> (r: Option<ComplianceReport>)
    requires
        store.wf(),
    ensures
        match r {
            Some(rep) => {
                let series = subs_of(store.submissions@, office_id as int);
                &&& series.len() > 0
                &&& rep.office_id == office_id
                &&& rep.total_weeks == series.len()
                &&& rep.submitted_weeks == submitted_count(series)
                &&& rep.compliance_rate.num == 100 * submitted_count(series)
                &&& rep.compliance_rate.den == series.len()
                &&& rat_wf(rep.compliance_rate)
                &&& rep.current_streak == current_streak_of(series)
                &&& rep.longest_streak == longest_streak_of(series)
                &&& rep.recent_submissions@ == recent_subs(series, store.weekly@, 10)
            },
            None => subs_of(store.submissions@, office_id as int).len() == 0,
        },
{
    let series = store.list_submission_compliance(office_id);
    if series.len() == 0 {
        return None;
    }
    let ghost sv = series@;

    // One forward pass: submitted count, streak ending at each prefix,
    // and the longest streak so far.
    let mut submitted: usize = 0;
    let mut run: usize = 0;
    let mut best: usize = 0;
    let mut i: usize = 0;
    while i < series.len()
        invariant
            i <= sv.len(),
            sv == series@,
            submitted <= i,
            run <= i,
            best <= i,
            submitted == submitted_count(sv.take(i as int)),
            run == current_streak_of(sv.take(i as int)),
            best == longest_streak_of(sv.take(i as int)),
        decreases sv.len() - i,
    {
        let ghost prefix = sv.take(i as int);
        let row = series[i];
        if row.submitted {
            submitted = submitted + 1;
            run = run + 1;
        } else {
            run = 0;
        }
        if run > best {
            best = run;
        }
        proof {
            let next = sv.take(i as int + 1);
            assert(next.drop_last() =~= prefix);
            assert(next.last() == sv[i as int]);
        }
        i = i + 1;
    }
    proof {
        assert(sv.take(sv.len() as int) =~= sv);
    }

    // Backward pass: collect up to ten corroborated weeks, newest first,
    // then reverse into chronological order.
    let mut acc: Vec<SubmissionRecord> = Vec::new();
    let mut idx: usize = series.len();
    let mut rem: usize = 10;
    while idx > 0 && rem > 0
        invariant
            idx <= sv.len(),
            sv == series@,
            rem <= 10,
            acc@.len() + rem == 10,
            recent_subs(sv, store.weekly@, 10) == recent_subs(sv.take(idx as int), store.weekly@,
                rem as nat) + acc@.reverse(),
        decreases idx,
    {
        let ghost prefix = sv.take(idx as int);
        let row = series[idx - 1];
        let has_production = match store.get_weekly(row.office_id, row.year, row.week_number) {
            Some(_) => true,
            None => false,
        };
        proof {
            assert(prefix.drop_last() =~= sv.take(idx as int - 1));
            assert(prefix.last() == sv[idx as int - 1]);
        }
        if has_production {
            let ghost old_acc = acc@;
            acc.push(row);
            proof {
                assert(acc@.reverse() =~= seq![row] + old_acc.reverse());
                assert(recent_subs(prefix, store.weekly@, rem as nat) =~= recent_subs(
                    sv.take(idx as int - 1),
                    store.weekly@,
                    (rem - 1) as nat,
                ) + seq![row]);
                assert(recent_subs(sv.take(idx as int - 1), store.weekly@, (rem - 1) as nat)
                    + seq![row] + old_acc.reverse() =~= recent_subs(
                    sv.take(idx as int - 1),
                    store.weekly@,
                    (rem - 1) as nat,
                ) + acc@.reverse());
            }
            rem = rem - 1;
        }
        idx = idx - 1;
    }
    proof {
        if rem == 0 {
            assert(recent_subs(sv.take(idx as int), store.weekly@, 0) =~= Seq::empty());
        } else {
            assert(sv.take(0) =~= Seq::<SubmissionRecord>::empty());
            assert(recent_subs(Seq::empty(), store.weekly@, rem as nat) =~= Seq::empty());
        }
        assert(recent_subs(sv, store.weekly@, 10) =~= acc@.reverse());
    }
    let mut recent: Vec<SubmissionRecord> = Vec::new();
    let mut j: usize = acc.len();
    while j > 0
        invariant
            j <= acc@.len(),
            recent@.len() == acc@.len() - j,
            forall|x: int| 0 <= x < recent@.len() ==> recent@[x] == acc@[acc@.len() - 1 - x],
        decreases j,
    {
        recent.push(acc[j - 1]);
        j = j - 1;
    }
    proof {
        assert(recent@ =~= acc@.reverse());
    }

    let total = series.len();
    Some(
        ComplianceReport {
            office_id,
            total_weeks: total,
            submitted_weeks: submitted,
            compliance_rate: Rational { num: 100 * (submitted as i128), den: total as i128 },
            current_streak: run,
            longest_streak: best,
            recent_submissions: recent,
        },
    )
}

} // verus!

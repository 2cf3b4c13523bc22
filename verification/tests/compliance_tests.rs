use labpulse::compliance::analyze_compliance;
use labpulse::records::{SubmissionRecord, WeeklyVolumeData};
use labpulse::store::Store;

fn submission(office_id: i64, year: i32, week_number: i32, submitted: bool) -> SubmissionRecord {
    SubmissionRecord { office_id, year, week_number, submitted }
}

fn weekly_row(office_id: i64, year: i32, week_number: i32) -> WeeklyVolumeData {
    WeeklyVolumeData {
        id: None,
        office_id,
        year,
        week_number,
        lab_setups: 1,
        lab_fixed_cases: 0,
        lab_over_denture: 0,
        lab_processes: 0,
        lab_finishes: 0,
        clinic_wax_tryin: 0,
        clinic_delivery: 0,
        clinic_outside_lab: 0,
        clinic_on_hold: 0,
        immediate_units: 0,
        economy_units: 0,
        economy_plus_units: 0,
        premium_units: 0,
        ultimate_units: 0,
        repair_units: 0,
        reline_units: 0,
        partial_units: 0,
        retry_units: 0,
        remake_units: 0,
        bite_block_units: 0,
    }
}

#[test]
fn streaks_from_example_series() {
    // Chronological submissions T, T, F, T, T, T: the current streak is
    // 3 and the longest streak is 3.
    let mut store = Store::new();
    let flags = [true, true, false, true, true, true];
    for (i, submitted) in flags.iter().enumerate() {
        store.upsert_submission(submission(1, 2024, (i + 1) as i32, *submitted));
    }
    let report = analyze_compliance(&store, 1).unwrap();
    assert_eq!(report.current_streak, 3);
    assert_eq!(report.longest_streak, 3);
    assert_eq!(report.total_weeks, 6);
    assert_eq!(report.submitted_weeks, 5);
}

#[test]
fn compliance_rate_counts_all_known_weeks() {
    let mut store = Store::new();
    store.upsert_submission(submission(1, 2024, 1, true));
    store.upsert_submission(submission(1, 2024, 2, false));
    store.upsert_submission(submission(1, 2024, 3, true));
    store.upsert_submission(submission(1, 2024, 4, true));
    let report = analyze_compliance(&store, 1).unwrap();
    assert_eq!((report.compliance_rate.num, report.compliance_rate.den), (300, 4));
    assert_eq!(report.compliance_rate.num as f64 / report.compliance_rate.den as f64, 75.0);
}

#[test]
fn trailing_miss_resets_current_streak() {
    let mut store = Store::new();
    store.upsert_submission(submission(1, 2024, 1, true));
    store.upsert_submission(submission(1, 2024, 2, true));
    store.upsert_submission(submission(1, 2024, 3, false));
    let report = analyze_compliance(&store, 1).unwrap();
    assert_eq!(report.current_streak, 0);
    assert_eq!(report.longest_streak, 2);
}

#[test]
fn office_without_submissions_is_excluded() {
    let mut store = Store::new();
    store.upsert_submission(submission(2, 2024, 1, true));
    assert!(analyze_compliance(&store, 1).is_none());
}

#[test]
fn recent_history_keeps_only_corroborated_weeks() {
    // Weeks 1 and 3 have weekly production rows, week 2 does not: the
    // recent history keeps weeks 1 and 3 in chronological order.
    let mut store = Store::new();
    store.upsert_submission(submission(1, 2024, 1, true));
    store.upsert_submission(submission(1, 2024, 2, false));
    store.upsert_submission(submission(1, 2024, 3, true));
    store.insert_weekly(weekly_row(1, 2024, 1));
    store.insert_weekly(weekly_row(1, 2024, 3));
    let report = analyze_compliance(&store, 1).unwrap();
    let weeks: Vec<i32> = report.recent_submissions.iter().map(|r| r.week_number).collect();
    assert_eq!(weeks, vec![1, 3]);
}

#[test]
fn recent_history_caps_at_ten_weeks() {
    let mut store = Store::new();
    for wk in 1..=14 {
        store.upsert_submission(submission(1, 2024, wk, true));
        store.insert_weekly(weekly_row(1, 2024, wk));
    }
    let report = analyze_compliance(&store, 1).unwrap();
    assert_eq!(report.recent_submissions.len(), 10);
    let weeks: Vec<i32> = report.recent_submissions.iter().map(|r| r.week_number).collect();
    assert_eq!(weeks, (5..=14).collect::<Vec<i32>>());
}

#[test]
fn series_are_separated_per_office() {
    let mut store = Store::new();
    store.upsert_submission(submission(1, 2024, 1, true));
    store.upsert_submission(submission(2, 2024, 1, false));
    store.upsert_submission(submission(1, 2024, 2, true));
    let one = analyze_compliance(&store, 1).unwrap();
    let two = analyze_compliance(&store, 2).unwrap();
    assert_eq!(one.total_weeks, 2);
    assert_eq!(one.submitted_weeks, 2);
    assert_eq!(two.total_weeks, 1);
    assert_eq!(two.submitted_weeks, 0);
}

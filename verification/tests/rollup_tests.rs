use labpulse::records::{VolumeData, WeeklyVolumeData};
use labpulse::rollup::aggregate_weekly_to_monthly;
use labpulse::store::Store;

fn weekly_row(office_id: i64, year: i32, week_number: i32, lab_setups: i32) -> WeeklyVolumeData {
    WeeklyVolumeData {
        id: None,
        office_id,
        year,
        week_number,
        lab_setups,
        lab_fixed_cases: 0,
        lab_over_denture: 0,
        lab_processes: 0,
        lab_finishes: 0,
        clinic_wax_tryin: 0,
        clinic_delivery: 0,
        clinic_outside_lab: 0,
        clinic_on_hold: 0,
        immediate_units: 0,
        economy_units: 0,
        economy_plus_units: 0,
        premium_units: 0,
        ultimate_units: 0,
        repair_units: 0,
        reline_units: 0,
        partial_units: 0,
        retry_units: 0,
        remake_units: 0,
        bite_block_units: 0,
    }
}

#[test]
fn rollup_means_are_rounded() {
    // Weeks 1-4 of 2024 belong to month 1; lab_setups 10, 20, 30, 40
    // average to exactly 25.
    let mut store = Store::new();
    for (week, setups) in [(1, 10), (2, 20), (3, 30), (4, 40)] {
        assert!(store.insert_weekly(weekly_row(1, 2024, week, setups)));
    }
    let written = aggregate_weekly_to_monthly(&mut store);
    assert_eq!(written, 1);
    let monthly = store.get_monthly_volume(1, 2024, 1).unwrap();
    assert_eq!(monthly.lab_setups, 25);
    assert_eq!(monthly.backlog_in_lab, 25);
    assert_eq!(monthly.backlog_in_clinic, 0);
    assert_eq!(monthly.total_weekly_units, 0);
}

#[test]
fn rollup_rounds_half_up() {
    // 1 and 2 average to 1.5, which rounds away from zero to 2.
    let mut store = Store::new();
    store.insert_weekly(weekly_row(1, 2024, 1, 1));
    store.insert_weekly(weekly_row(1, 2024, 2, 2));
    aggregate_weekly_to_monthly(&mut store);
    let monthly = store.get_monthly_volume(1, 2024, 1).unwrap();
    assert_eq!(monthly.lab_setups, 2);
}

#[test]
fn rollup_averages_only_present_weeks() {
    // Only one of month 1's four weeks is present: the mean divides by
    // one, not four.
    let mut store = Store::new();
    store.insert_weekly(weekly_row(1, 2024, 3, 12));
    aggregate_weekly_to_monthly(&mut store);
    let monthly = store.get_monthly_volume(1, 2024, 1).unwrap();
    assert_eq!(monthly.lab_setups, 12);
}

#[test]
fn rollup_groups_by_owning_month() {
    // Weeks 4 and 5 straddle the month-1/month-2 boundary.
    let mut store = Store::new();
    store.insert_weekly(weekly_row(7, 2024, 4, 10));
    store.insert_weekly(weekly_row(7, 2024, 5, 30));
    let written = aggregate_weekly_to_monthly(&mut store);
    assert_eq!(written, 2);
    assert_eq!(store.get_monthly_volume(7, 2024, 1).unwrap().lab_setups, 10);
    assert_eq!(store.get_monthly_volume(7, 2024, 2).unwrap().lab_setups, 30);
}

#[test]
fn rollup_derives_all_three_totals() {
    let mut store = Store::new();
    let mut row = weekly_row(1, 2024, 1, 1);
    row.lab_fixed_cases = 2;
    row.lab_over_denture = 3;
    row.lab_processes = 4;
    row.lab_finishes = 5;
    row.clinic_wax_tryin = 6;
    row.clinic_delivery = 7;
    row.clinic_outside_lab = 8;
    row.clinic_on_hold = 9;
    row.immediate_units = 1;
    row.economy_units = 2;
    row.economy_plus_units = 3;
    row.premium_units = 4;
    row.ultimate_units = 5;
    row.repair_units = 6;
    row.reline_units = 7;
    row.partial_units = 8;
    row.retry_units = 9;
    row.remake_units = 10;
    row.bite_block_units = 11;
    store.insert_weekly(row);
    aggregate_weekly_to_monthly(&mut store);
    let monthly = store.get_monthly_volume(1, 2024, 1).unwrap();
    assert_eq!(monthly.backlog_in_lab, 1 + 2 + 3 + 4 + 5);
    assert_eq!(monthly.backlog_in_clinic, 6 + 7 + 8 + 9);
    assert_eq!(monthly.total_weekly_units, 1 + 2 + 3 + 4 + 5 + 6 + 7 + 8 + 9 + 10 + 11);
}

#[test]
fn rollup_is_idempotent() {
    let mut store = Store::new();
    store.insert_weekly(weekly_row(1, 2024, 1, 10));
    store.insert_weekly(weekly_row(1, 2024, 2, 21));
    store.insert_weekly(weekly_row(2, 2024, 9, 7));
    store.insert_weekly(weekly_row(2, 2025, 50, 3));
    let first_count = aggregate_weekly_to_monthly(&mut store);
    let after_first = store.volumes.clone();
    let second_count = aggregate_weekly_to_monthly(&mut store);
    assert_eq!(first_count, 3);
    assert_eq!(second_count, 3);
    assert_eq!(store.volumes, after_first);
}

#[test]
fn rollup_leaves_unrelated_months_alone() {
    let mut store = Store::new();
    let direct = VolumeData {
        id: None,
        office_id: 9,
        year: 2020,
        month: 6,
        backlog_in_lab: 1,
        backlog_in_clinic: 2,
        lab_setups: 3,
        lab_fixed_cases: 0,
        lab_over_denture: 0,
        lab_processes: 0,
        lab_finishes: 0,
        clinic_wax_tryin: 0,
        clinic_delivery: 0,
        clinic_outside_lab: 0,
        clinic_on_hold: 0,
        immediate_units: 0,
        economy_units: 0,
        economy_plus_units: 0,
        premium_units: 0,
        ultimate_units: 0,
        repair_units: 0,
        reline_units: 0,
        partial_units: 0,
        retry_units: 0,
        remake_units: 0,
        bite_block_units: 0,
        total_weekly_units: 0,
    };
    store.upsert_monthly_volume(direct.clone());
    store.insert_weekly(weekly_row(1, 2024, 1, 10));
    aggregate_weekly_to_monthly(&mut store);
    assert_eq!(store.get_monthly_volume(9, 2020, 6), Some(direct));
    assert!(store.get_monthly_volume(1, 2024, 1).is_some());
}

#[test]
fn duplicate_weekly_rows_are_skipped() {
    let mut store = Store::new();
    assert!(store.insert_weekly(weekly_row(1, 2024, 1, 10)));
    assert!(!store.insert_weekly(weekly_row(1, 2024, 1, 99)));
    assert_eq!(store.get_weekly(1, 2024, 1).unwrap().lab_setups, 10);
}

#[test]
fn weekly_records_for_month_are_week_ordered() {
    let mut store = Store::new();
    store.insert_weekly(weekly_row(1, 2024, 3, 30));
    store.insert_weekly(weekly_row(1, 2024, 1, 10));
    store.insert_weekly(weekly_row(1, 2024, 5, 50));
    let records = store.weekly_records_for_month(1, 2024, 1);
    let weeks: Vec<i32> = records.iter().map(|r| r.week_number).collect();
    assert_eq!(weeks, vec![1, 3]);
}

use labpulse::errors::EngineError;
use labpulse::period::{enumerate_months, is_single_period, month_to_week_range, previous_period,
    week_to_month};

#[test]
fn previous_period_wraps_january() {
    assert_eq!(previous_period(2024, 1), (2023, 12));
}

#[test]
fn previous_period_mid_year() {
    assert_eq!(previous_period(2024, 7), (2024, 6));
}

#[test]
fn week_table_matches_fixed_partition() {
    assert_eq!(month_to_week_range(1), (1, 4));
    assert_eq!(month_to_week_range(2), (5, 8));
    assert_eq!(month_to_week_range(3), (9, 13));
    assert_eq!(month_to_week_range(4), (14, 17));
    assert_eq!(month_to_week_range(5), (18, 22));
    assert_eq!(month_to_week_range(6), (23, 26));
    assert_eq!(month_to_week_range(7), (27, 30));
    assert_eq!(month_to_week_range(8), (31, 35));
    assert_eq!(month_to_week_range(9), (36, 39));
    assert_eq!(month_to_week_range(10), (40, 43));
    assert_eq!(month_to_week_range(11), (44, 48));
    assert_eq!(month_to_week_range(12), (49, 53));
}

#[test]
fn week_to_month_inverts_range_endpoints() {
    for m in 1..=12 {
        let (start, end) = month_to_week_range(m);
        assert_eq!(week_to_month(start), m);
        assert_eq!(week_to_month(end), m);
    }
}

#[test]
fn week_to_month_thresholds() {
    assert_eq!(week_to_month(1), 1);
    assert_eq!(week_to_month(4), 1);
    assert_eq!(week_to_month(5), 2);
    assert_eq!(week_to_month(13), 3);
    assert_eq!(week_to_month(14), 4);
    assert_eq!(week_to_month(53), 12);
}

#[test]
fn enumerate_months_spans_year_boundary() {
    let months = enumerate_months(2023, 11, 2024, 2).unwrap();
    assert_eq!(months, vec![(2023, 11), (2023, 12), (2024, 1), (2024, 2)]);
}

#[test]
fn enumerate_months_single_month() {
    let months = enumerate_months(2024, 5, 2024, 5).unwrap();
    assert_eq!(months, vec![(2024, 5)]);
}

#[test]
fn enumerate_months_rejects_backward_window() {
    assert_eq!(enumerate_months(2024, 5, 2024, 4), Err(EngineError::InvalidRange));
    assert_eq!(enumerate_months(2025, 1, 2024, 12), Err(EngineError::InvalidRange));
}

#[test]
fn single_period_detection() {
    assert!(is_single_period(2024, 3, 2024, 3));
    assert!(!is_single_period(2024, 3, 2024, 4));
    assert!(!is_single_period(2023, 3, 2024, 3));
}

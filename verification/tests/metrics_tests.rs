use labpulse::errors::EngineError;
use labpulse::metrics::{metric_from_name, metric_value_for_office, require_metric,
    resolve_metric_values, Metric};
use labpulse::records::{FinancialData, Office, VolumeData};
use labpulse::store::Store;

fn office(office_id: i64, name: &str) -> Office {
    Office {
        office_id,
        office_name: name.to_string(),
        model: "PO".to_string(),
        address: None,
        phone: None,
        managing_dentist: None,
        dfo: None,
        standardization_status: None,
    }
}

fn fin_row(office_id: i64, year: i32, month: i32) -> FinancialData {
    FinancialData {
        id: None,
        office_id,
        year,
        month,
        revenue: None,
        lab_exp_no_outside: None,
        lab_exp_with_outside: None,
        outside_lab_spend: None,
        teeth_supplies: None,
        lab_supplies: None,
        lab_hub: None,
        lss_expense: None,
        personnel_exp: None,
        overtime_exp: None,
        bonus_exp: None,
    }
}

fn vol_row(office_id: i64, year: i32, month: i32, total_weekly_units: i32) -> VolumeData {
    VolumeData {
        id: None,
        office_id,
        year,
        month,
        backlog_in_lab: 0,
        backlog_in_clinic: 0,
        lab_setups: 0,
        lab_fixed_cases: 0,
        lab_over_denture: 0,
        lab_processes: 0,
        lab_finishes: 0,
        clinic_wax_tryin: 0,
        clinic_delivery: 0,
        clinic_outside_lab: 0,
        clinic_on_hold: 0,
        immediate_units: 0,
        economy_units: 0,
        economy_plus_units: 0,
        premium_units: 0,
        ultimate_units: 0,
        repair_units: 0,
        reline_units: 0,
        partial_units: 0,
        retry_units: 0,
        remake_units: 0,
        bite_block_units: 0,
        total_weekly_units,
    }
}

#[test]
fn metric_names_resolve() {
    assert_eq!(metric_from_name("revenue"), Some(Metric::Revenue));
    assert_eq!(metric_from_name("lab_expense_percent"), Some(Metric::LabExpensePercent));
    assert_eq!(
        metric_from_name("personnel_expense_percent"),
        Some(Metric::PersonnelExpensePercent)
    );
    assert_eq!(metric_from_name("total_weekly_units"), Some(Metric::TotalWeeklyUnits));
    assert_eq!(metric_from_name("backlog_in_lab"), Some(Metric::BacklogInLab));
    assert_eq!(metric_from_name("backlog_in_clinic"), Some(Metric::BacklogInClinic));
    assert_eq!(metric_from_name("data_completeness"), Some(Metric::DataCompleteness));
    assert_eq!(metric_from_name("cases_shipped"), None);
    assert_eq!(metric_from_name(""), None);
}

#[test]
fn require_metric_flags_programmatic_misuse() {
    assert_eq!(require_metric("revenue"), Ok(Metric::Revenue));
    assert_eq!(require_metric("velocity"), Err(EngineError::InvalidMetric));
}

#[test]
fn single_month_revenue_is_exact() {
    let mut store = Store::new();
    store.upsert_office(office(1, "North"));
    let mut row = fin_row(1, 2024, 3);
    row.revenue = Some(125_000);
    store.upsert_monthly_financial(row);
    let value = metric_value_for_office(&store, 1, Some(Metric::Revenue), 2024, 3, 2024, 3);
    let rational = value.unwrap();
    assert_eq!((rational.num, rational.den), (125_000, 1));
}

#[test]
fn multi_month_revenue_sums() {
    let mut store = Store::new();
    let mut a = fin_row(1, 2024, 1);
    a.revenue = Some(100);
    let mut b = fin_row(1, 2024, 2);
    b.revenue = Some(250);
    let mut c = fin_row(1, 2024, 5);
    c.revenue = Some(999);  // outside the window
    store.upsert_monthly_financial(a);
    store.upsert_monthly_financial(b);
    store.upsert_monthly_financial(c);
    let value = metric_value_for_office(&store, 1, Some(Metric::Revenue), 2024, 1, 2024, 3);
    let rational = value.unwrap();
    assert_eq!((rational.num, rational.den), (350, 1));
}

#[test]
fn multi_month_revenue_without_rows_is_absent() {
    let store = Store::new();
    let value = metric_value_for_office(&store, 1, Some(Metric::Revenue), 2024, 1, 2024, 3);
    assert!(value.is_none());
}

#[test]
fn percent_metric_is_ratio_times_hundred() {
    let mut store = Store::new();
    let mut row = fin_row(1, 2024, 3);
    row.revenue = Some(200_000);
    row.lab_exp_with_outside = Some(50_000);
    store.upsert_monthly_financial(row);
    let value =
        metric_value_for_office(&store, 1, Some(Metric::LabExpensePercent), 2024, 3, 2024, 3);
    let rational = value.unwrap();
    assert_eq!((rational.num, rational.den), (5_000_000, 200_000));
    assert_eq!(rational.num as f64 / rational.den as f64, 25.0);
}

#[test]
fn percent_metric_guards_zero_revenue() {
    // Zero revenue with any expense value: the percent is absent, never
    // a division error.
    let mut store = Store::new();
    let mut row = fin_row(1, 2024, 3);
    row.revenue = Some(0);
    row.lab_exp_with_outside = Some(75_000);
    row.personnel_exp = Some(44_000);
    store.upsert_monthly_financial(row);
    assert!(
        metric_value_for_office(&store, 1, Some(Metric::LabExpensePercent), 2024, 3, 2024, 3)
            .is_none()
    );
    assert!(
        metric_value_for_office(&store, 1, Some(Metric::PersonnelExpensePercent), 2024, 3, 2024, 3)
            .is_none()
    );
}

#[test]
fn percent_metric_needs_both_fields() {
    let mut store = Store::new();
    let mut row = fin_row(1, 2024, 3);
    row.revenue = Some(10_000);
    store.upsert_monthly_financial(row);
    assert!(
        metric_value_for_office(&store, 1, Some(Metric::LabExpensePercent), 2024, 3, 2024, 3)
            .is_none()
    );
}

#[test]
fn percent_metric_is_suppressed_for_multi_month_windows() {
    let mut store = Store::new();
    let mut row = fin_row(1, 2024, 1);
    row.revenue = Some(10_000);
    row.lab_exp_with_outside = Some(5_000);
    store.upsert_monthly_financial(row);
    assert!(
        metric_value_for_office(&store, 1, Some(Metric::LabExpensePercent), 2024, 1, 2024, 2)
            .is_none()
    );
}

#[test]
fn volume_metric_averages_months_in_window() {
    let mut store = Store::new();
    store.upsert_monthly_volume(vol_row(1, 2024, 1, 10));
    store.upsert_monthly_volume(vol_row(1, 2024, 2, 20));
    store.upsert_monthly_volume(vol_row(1, 2024, 3, 40));
    let value =
        metric_value_for_office(&store, 1, Some(Metric::TotalWeeklyUnits), 2024, 1, 2024, 3);
    let rational = value.unwrap();
    assert_eq!((rational.num, rational.den), (70, 3));
}

#[test]
fn data_completeness_formula() {
    // Three-month window with 2 financial rows and 1 volume row present:
    // (2 + 1) / (3 * 2) * 100 = 50.0.
    let mut store = Store::new();
    store.upsert_monthly_financial(fin_row(1, 2024, 1));
    store.upsert_monthly_financial(fin_row(1, 2024, 2));
    store.upsert_monthly_volume(vol_row(1, 2024, 3, 0));
    let value =
        metric_value_for_office(&store, 1, Some(Metric::DataCompleteness), 2024, 1, 2024, 3);
    let rational = value.unwrap();
    assert_eq!((rational.num, rational.den), (300, 6));
    assert_eq!(rational.num as f64 / rational.den as f64, 50.0);
}

#[test]
fn data_completeness_is_zero_not_absent_without_rows() {
    let store = Store::new();
    let value =
        metric_value_for_office(&store, 1, Some(Metric::DataCompleteness), 2024, 1, 2024, 3);
    let rational = value.unwrap();
    assert_eq!((rational.num, rational.den), (0, 6));
}

#[test]
fn unknown_metric_yields_absent_value_per_office() {
    let mut store = Store::new();
    store.upsert_office(office(1, "North"));
    store.upsert_office(office(2, "South"));
    let values = resolve_metric_values(&store, "not_a_metric", 2024, 1, 2024, 1).unwrap();
    assert_eq!(values.len(), 2);
    assert_eq!(values[0].0, 1);
    assert_eq!(values[1].0, 2);
    assert!(values.iter().all(|(_, v)| v.is_none()));
}

#[test]
fn resolver_rejects_backward_window() {
    let store = Store::new();
    assert!(matches!(
        resolve_metric_values(&store, "revenue", 2024, 2, 2024, 1),
        Err(EngineError::InvalidRange)
    ));
}

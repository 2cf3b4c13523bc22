use labpulse::dashboard::get_dashboard_data;
use labpulse::errors::EngineError;
use labpulse::records::{FinancialData, NotesAction, Office, OperationsData, VolumeData};
use labpulse::store::Store;

fn office(office_id: i64, name: &str) -> Office {
    Office {
        office_id,
        office_name: name.to_string(),
        model: "PLLC".to_string(),
        address: Some("1 Main St".to_string()),
        phone: None,
        managing_dentist: None,
        dfo: Some("Region A".to_string()),
        standardization_status: None,
    }
}

fn fin_row(office_id: i64, year: i32, month: i32) -> FinancialData {
    FinancialData {
        id: None,
        office_id,
        year,
        month,
        revenue: None,
        lab_exp_no_outside: None,
        lab_exp_with_outside: None,
        outside_lab_spend: None,
        teeth_supplies: None,
        lab_supplies: None,
        lab_hub: None,
        lss_expense: None,
        personnel_exp: None,
        overtime_exp: None,
        bonus_exp: None,
    }
}

fn ops_row(office_id: i64, year: i32, month: i32, backlog: Option<i32>) -> OperationsData {
    OperationsData {
        id: None,
        office_id,
        year,
        month,
        backlog_case_count: backlog,
        overtime_value: None,
        labor_model_value: None,
    }
}

fn vol_row(office_id: i64, year: i32, month: i32) -> VolumeData {
    VolumeData {
        id: None,
        office_id,
        year,
        month,
        backlog_in_lab: 0,
        backlog_in_clinic: 0,
        lab_setups: 0,
        lab_fixed_cases: 0,
        lab_over_denture: 0,
        lab_processes: 0,
        lab_finishes: 0,
        clinic_wax_tryin: 0,
        clinic_delivery: 0,
        clinic_outside_lab: 0,
        clinic_on_hold: 0,
        immediate_units: 0,
        economy_units: 0,
        economy_plus_units: 0,
        premium_units: 0,
        ultimate_units: 0,
        repair_units: 0,
        reline_units: 0,
        partial_units: 0,
        retry_units: 0,
        remake_units: 0,
        bite_block_units: 0,
        total_weekly_units: 0,
    }
}

#[test]
fn empty_office_appears_once_with_all_fields_absent() {
    let mut store = Store::new();
    store.upsert_office(office(5, "Quiet"));
    let summaries = get_dashboard_data(&store, 2024, 3, 2024, 3).unwrap();
    assert_eq!(summaries.len(), 1);
    let s = &summaries[0];
    assert_eq!(s.office_id, 5);
    assert_eq!(s.office_name, "Quiet");
    assert!(s.revenue.is_none());
    assert!(s.lab_exp_percent.is_none());
    assert!(s.personnel_percent.is_none());
    assert!(s.overtime_percent.is_none());
    assert!(s.backlog_count.is_none());
    assert!(s.latest_year.is_none());
    assert!(s.latest_month.is_none());
    assert!(!s.has_financial);
    assert!(!s.has_operations);
    assert!(!s.has_volume);
    assert!(!s.has_notes);
}

#[test]
fn offices_come_back_ascending_by_id() {
    let mut store = Store::new();
    store.upsert_office(office(30, "C"));
    store.upsert_office(office(10, "A"));
    store.upsert_office(office(20, "B"));
    let summaries = get_dashboard_data(&store, 2024, 1, 2024, 1).unwrap();
    let ids: Vec<i64> = summaries.iter().map(|s| s.office_id).collect();
    assert_eq!(ids, vec![10, 20, 30]);
}

#[test]
fn full_financial_row_fills_every_percentage() {
    let mut store = Store::new();
    store.upsert_office(office(1, "North"));
    let mut row = fin_row(1, 2024, 3);
    row.revenue = Some(200_000);
    row.lab_exp_with_outside = Some(50_000);
    row.personnel_exp = Some(80_000);
    row.overtime_exp = Some(10_000);
    store.upsert_monthly_financial(row);
    let s = &get_dashboard_data(&store, 2024, 3, 2024, 3).unwrap()[0];
    assert!(s.has_financial);
    assert_eq!(s.revenue, Some(200_000));
    let lab = s.lab_exp_percent.unwrap();
    assert_eq!(lab.num as f64 / lab.den as f64, 25.0);
    let pers = s.personnel_percent.unwrap();
    assert_eq!(pers.num as f64 / pers.den as f64, 40.0);
    let ot = s.overtime_percent.unwrap();
    assert_eq!(ot.num as f64 / ot.den as f64, 5.0);
}

#[test]
fn leading_subset_counts_as_financial_data() {
    // Revenue and lab expense present, personnel missing: the row still
    // counts as financial data, but only the leading pair is read, so
    // the overtime figure is ignored even though it is present.
    let mut store = Store::new();
    store.upsert_office(office(1, "North"));
    let mut row = fin_row(1, 2024, 3);
    row.revenue = Some(100_000);
    row.lab_exp_with_outside = Some(20_000);
    row.overtime_exp = Some(9_000);
    store.upsert_monthly_financial(row);
    let s = &get_dashboard_data(&store, 2024, 3, 2024, 3).unwrap()[0];
    assert!(s.has_financial);
    assert_eq!(s.revenue, Some(100_000));
    assert!(s.lab_exp_percent.is_some());
    assert!(s.personnel_percent.is_none());
    assert!(s.overtime_percent.is_none());
}

#[test]
fn non_leading_subset_is_no_financial_data() {
    // Lab expense present but revenue missing: not a leading subset, so
    // the row counts as no financial data at all.
    let mut store = Store::new();
    store.upsert_office(office(1, "North"));
    let mut row = fin_row(1, 2024, 3);
    row.lab_exp_with_outside = Some(20_000);
    store.upsert_monthly_financial(row);
    let s = &get_dashboard_data(&store, 2024, 3, 2024, 3).unwrap()[0];
    assert!(!s.has_financial);
    assert!(s.revenue.is_none());
    assert!(s.lab_exp_percent.is_none());
}

#[test]
fn multi_month_window_suppresses_percentages_and_sums_revenue() {
    let mut store = Store::new();
    store.upsert_office(office(1, "North"));
    let mut a = fin_row(1, 2024, 1);
    a.revenue = Some(100);
    a.lab_exp_with_outside = Some(40);
    let mut b = fin_row(1, 2024, 2);
    b.revenue = Some(300);
    store.upsert_monthly_financial(a);
    store.upsert_monthly_financial(b);
    let s = &get_dashboard_data(&store, 2024, 1, 2024, 2).unwrap()[0];
    assert!(s.has_financial);
    assert_eq!(s.revenue, Some(400));
    assert!(s.lab_exp_percent.is_none());
    assert!(s.personnel_percent.is_none());
    assert!(s.overtime_percent.is_none());
}

#[test]
fn single_month_backlog_reads_the_stored_count() {
    let mut store = Store::new();
    store.upsert_office(office(1, "North"));
    store.upsert_monthly_ops(ops_row(1, 2024, 3, Some(17)));
    let s = &get_dashboard_data(&store, 2024, 3, 2024, 3).unwrap()[0];
    assert!(s.has_operations);
    assert_eq!(s.backlog_count, Some(17));
}

#[test]
fn ops_row_without_backlog_count_is_no_operations_data() {
    // An operations row whose backlog count is absent reads as no
    // operations data at all: flag false, count absent.
    let mut store = Store::new();
    store.upsert_office(office(1, "North"));
    store.upsert_monthly_ops(ops_row(1, 2024, 3, None));
    let s = &get_dashboard_data(&store, 2024, 3, 2024, 3).unwrap()[0];
    assert!(!s.has_operations);
    assert!(s.backlog_count.is_none());
}

#[test]
fn multi_month_operations_presence_follows_backlog_data() {
    let mut store = Store::new();
    store.upsert_office(office(1, "North"));
    store.upsert_monthly_ops(ops_row(1, 2024, 1, None));
    store.upsert_monthly_ops(ops_row(1, 2024, 2, None));
    let s = &get_dashboard_data(&store, 2024, 1, 2024, 2).unwrap()[0];
    assert!(!s.has_operations);
    assert!(s.backlog_count.is_none());
}

#[test]
fn multi_month_backlog_is_rounded_average() {
    // 10 and 15 average to 12.5, rounding away from zero to 13; the
    // month with no stored count is excluded, not counted as zero.
    let mut store = Store::new();
    store.upsert_office(office(1, "North"));
    store.upsert_monthly_ops(ops_row(1, 2024, 1, Some(10)));
    store.upsert_monthly_ops(ops_row(1, 2024, 2, Some(15)));
    store.upsert_monthly_ops(ops_row(1, 2024, 3, None));
    let s = &get_dashboard_data(&store, 2024, 1, 2024, 3).unwrap()[0];
    assert_eq!(s.backlog_count, Some(13));
    assert!(s.has_operations);
}

#[test]
fn latest_period_spans_all_history_and_tables() {
    let mut store = Store::new();
    store.upsert_office(office(1, "North"));
    store.upsert_monthly_financial(fin_row(1, 2022, 5));
    store.upsert_monthly_ops(ops_row(1, 2023, 8, None));
    store.upsert_monthly_volume(vol_row(1, 2023, 2));
    // The window is far away from the data: latest ignores the window.
    let s = &get_dashboard_data(&store, 2024, 1, 2024, 1).unwrap()[0];
    assert_eq!(s.latest_year, Some(2023));
    assert_eq!(s.latest_month, Some(8));
}

#[test]
fn notes_presence_is_window_bounded() {
    let mut store = Store::new();
    store.upsert_office(office(1, "North"));
    store.upsert_note(NotesAction {
        id: None,
        office_id: 1,
        year: 2024,
        month: 2,
        note_text: "follow up".to_string(),
    });
    let inside = &get_dashboard_data(&store, 2024, 2, 2024, 2).unwrap()[0];
    assert!(inside.has_notes);
    let outside = &get_dashboard_data(&store, 2024, 3, 2024, 3).unwrap()[0];
    assert!(!outside.has_notes);
}

#[test]
fn dashboard_rejects_backward_window() {
    let store = Store::new();
    assert!(matches!(
        get_dashboard_data(&store, 2024, 2, 2024, 1),
        Err(EngineError::InvalidRange)
    ));
}

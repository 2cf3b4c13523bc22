use labpulse::imports::{import_bulk_financial_rows, import_bulk_weekly_rows, normalize_office_id,
    FinancialImportRow, IssueKind, WeeklyImportRow};
use labpulse::store::Store;

fn fin_import_row(office_id: i64, year: i64, month: i64) -> FinancialImportRow {
    FinancialImportRow {
        office_id: Some(office_id),
        year: Some(year),
        month: Some(month),
        revenue: None,
        lab_exp_no_outside: None,
        lab_exp_with_outside: None,
        teeth_supplies: None,
        lab_supplies: None,
        lab_hub: None,
        lss_expense: None,
        personnel_exp: None,
        overtime_exp: None,
        bonus_exp: None,
    }
}

fn weekly_import_row(office_id: i64, year: i64, week: i64) -> WeeklyImportRow {
    WeeklyImportRow {
        office_id: Some(office_id),
        year: Some(year),
        week_number: Some(week),
        lab_setups: None,
        lab_fixed_cases: None,
        lab_over_denture: None,
        lab_processes: None,
        lab_finishes: None,
        clinic_wax_tryin: None,
        clinic_delivery: None,
        clinic_outside_lab: None,
        clinic_on_hold: None,
        immediate_units: None,
        economy_units: None,
        economy_plus_units: None,
        premium_units: None,
        ultimate_units: None,
        repair_units: None,
        reline_units: None,
        partial_units: None,
        retry_units: None,
        remake_units: None,
        bite_block_units: None,
    }
}

#[test]
fn office_id_trims_and_strips_leading_zeros() {
    assert_eq!(normalize_office_id(" 007 "), Some(7));
    assert_eq!(normalize_office_id("042"), Some(42));
    assert_eq!(normalize_office_id("1234"), Some(1234));
}

#[test]
fn office_id_trims_unicode_whitespace() {
    assert_eq!(normalize_office_id("\u{00a0}7\u{00a0}"), Some(7));
    assert_eq!(normalize_office_id("\u{2003}42\t\u{2009}"), Some(42));
    assert_eq!(normalize_office_id("\u{3000}\u{1680}9\u{2028}\u{205f}\u{0085}"), Some(9));
    assert_eq!(normalize_office_id("\u{202f}\u{2029}"), None);
    assert_eq!(normalize_office_id("1\u{00a0}2"), None);
}

#[test]
fn office_id_accepts_signs() {
    assert_eq!(normalize_office_id("-42"), Some(-42));
    assert_eq!(normalize_office_id("+5"), Some(5));
}

#[test]
fn office_id_rejects_non_numeric_cells() {
    assert_eq!(normalize_office_id(""), None);
    assert_eq!(normalize_office_id("   "), None);
    assert_eq!(normalize_office_id("abc"), None);
    assert_eq!(normalize_office_id("12a"), None);
    assert_eq!(normalize_office_id("-"), None);
    assert_eq!(normalize_office_id("+"), None);
    assert_eq!(normalize_office_id("1 2"), None);
}

#[test]
fn office_id_respects_64_bit_bounds() {
    assert_eq!(normalize_office_id("9223372036854775807"), Some(i64::MAX));
    assert_eq!(normalize_office_id("9223372036854775808"), None);
    assert_eq!(normalize_office_id("-9223372036854775808"), Some(i64::MIN));
    assert_eq!(normalize_office_id("-9223372036854775809"), None);
    assert_eq!(normalize_office_id("99999999999999999999999999"), None);
}

#[test]
fn financial_import_derives_outside_lab_spend() {
    // The outside-lab spend is always recomputed from the two lab
    // figures; it is never taken from the file.
    let mut store = Store::new();
    let mut row = fin_import_row(1, 2024, 3);
    row.lab_exp_no_outside = Some(40_000);
    row.lab_exp_with_outside = Some(55_000);
    row.revenue = Some(200_000);
    let out = import_bulk_financial_rows(&mut store, &vec![row]);
    assert_eq!(out.rows_processed, 1);
    assert_eq!(out.rows_inserted, 1);
    assert_eq!(out.rows_updated, 0);
    assert!(out.issues.is_empty());
    let stored = store.get_monthly_financial(1, 2024, 3).unwrap();
    assert_eq!(stored.outside_lab_spend, Some(15_000));
    assert_eq!(stored.revenue, Some(200_000));
}

#[test]
fn financial_import_defaults_missing_amounts_to_zero() {
    let mut store = Store::new();
    import_bulk_financial_rows(&mut store, &vec![fin_import_row(1, 2024, 1)]);
    let stored = store.get_monthly_financial(1, 2024, 1).unwrap();
    assert_eq!(stored.revenue, Some(0));
    assert_eq!(stored.bonus_exp, Some(0));
    assert_eq!(stored.outside_lab_spend, Some(0));
}

#[test]
fn financial_import_rejects_bad_rows_and_keeps_going() {
    let mut store = Store::new();
    let mut missing_office = fin_import_row(1, 2024, 1);
    missing_office.office_id = None;
    let mut bad_month = fin_import_row(1, 2024, 13);
    bad_month.month = Some(13);
    let good = fin_import_row(2, 2024, 2);
    let out = import_bulk_financial_rows(&mut store, &vec![missing_office, bad_month, good]);
    assert_eq!(out.rows_processed, 3);
    assert_eq!(out.rows_inserted, 1);
    assert_eq!(out.issues.len(), 2);
    assert_eq!(out.issues[0].row, 0);
    assert_eq!(out.issues[0].kind, IssueKind::MissingOfficeId);
    assert_eq!(out.issues[1].row, 1);
    assert_eq!(out.issues[1].kind, IssueKind::InvalidMonth);
    assert!(store.get_monthly_financial(2, 2024, 2).is_some());
}

#[test]
fn financial_import_upserts_with_last_write_winning() {
    let mut store = Store::new();
    let mut first = fin_import_row(1, 2024, 1);
    first.revenue = Some(100);
    let mut second = fin_import_row(1, 2024, 1);
    second.revenue = Some(900);
    let out = import_bulk_financial_rows(&mut store, &vec![first, second]);
    assert_eq!(out.rows_inserted, 1);
    assert_eq!(out.rows_updated, 1);
    assert_eq!(store.get_monthly_financial(1, 2024, 1).unwrap().revenue, Some(900));
}

#[test]
fn weekly_import_skips_duplicate_weeks() {
    // Weekly rows are immutable once imported: a duplicate week in the
    // file is skipped, not overwritten.
    let mut store = Store::new();
    let mut first = weekly_import_row(1, 2024, 1);
    first.lab_setups = Some(10);
    let mut dup = weekly_import_row(1, 2024, 1);
    dup.lab_setups = Some(99);
    let out = import_bulk_weekly_rows(&mut store, &vec![first, dup]);
    assert_eq!(out.rows_processed, 2);
    assert_eq!(out.weekly_inserted, 1);
    assert_eq!(out.weekly_skipped, 1);
    assert_eq!(store.get_weekly(1, 2024, 1).unwrap().lab_setups, 10);
}

#[test]
fn weekly_import_rolls_up_monthly_rows() {
    let mut store = Store::new();
    let mut a = weekly_import_row(1, 2024, 1);
    a.lab_setups = Some(10);
    let mut b = weekly_import_row(1, 2024, 2);
    b.lab_setups = Some(20);
    let mut c = weekly_import_row(1, 2024, 3);
    c.lab_setups = Some(30);
    let mut d = weekly_import_row(1, 2024, 4);
    d.lab_setups = Some(40);
    let out = import_bulk_weekly_rows(&mut store, &vec![a, b, c, d]);
    assert_eq!(out.weekly_inserted, 4);
    assert_eq!(out.monthly_updated, 1);
    let monthly = store.get_monthly_volume(1, 2024, 1).unwrap();
    assert_eq!(monthly.lab_setups, 25);
}

#[test]
fn weekly_import_rejects_invalid_weeks() {
    let mut store = Store::new();
    let mut bad = weekly_import_row(1, 2024, 54);
    bad.week_number = Some(54);
    let mut missing = weekly_import_row(1, 2024, 1);
    missing.week_number = None;
    let out = import_bulk_weekly_rows(&mut store, &vec![bad, missing]);
    assert_eq!(out.weekly_inserted, 0);
    assert_eq!(out.issues.len(), 2);
    assert_eq!(out.issues[0].kind, IssueKind::InvalidWeek);
    assert_eq!(out.issues[1].kind, IssueKind::MissingWeek);
}

#[test]
fn weekly_import_rejects_out_of_range_counters() {
    let mut store = Store::new();
    let mut negative = weekly_import_row(1, 2024, 1);
    negative.lab_setups = Some(-5);
    let out = import_bulk_weekly_rows(&mut store, &vec![negative]);
    assert_eq!(out.weekly_inserted, 0);
    assert_eq!(out.issues.len(), 1);
    assert_eq!(out.issues[0].kind, IssueKind::CountOutOfRange);
}

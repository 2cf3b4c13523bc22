use labpulse::records::{FinancialData, NotesAction, Office, OperationsData};
use labpulse::store::Store;

fn office(office_id: i64, name: &str) -> Office {
    Office {
        office_id,
        office_name: name.to_string(),
        model: "PO".to_string(),
        address: None,
        phone: None,
        managing_dentist: None,
        dfo: None,
        standardization_status: None,
    }
}

fn fin_row(office_id: i64, year: i32, month: i32, revenue: Option<i64>) -> FinancialData {
    FinancialData {
        id: None,
        office_id,
        year,
        month,
        revenue,
        lab_exp_no_outside: None,
        lab_exp_with_outside: None,
        outside_lab_spend: None,
        teeth_supplies: None,
        lab_supplies: None,
        lab_hub: None,
        lss_expense: None,
        personnel_exp: None,
        overtime_exp: None,
        bonus_exp: None,
    }
}

#[test]
fn upsert_office_replaces_same_id_and_keeps_order() {
    let mut store = Store::new();
    store.upsert_office(office(2, "Old South"));
    store.upsert_office(office(1, "North"));
    store.upsert_office(office(2, "South"));
    let names: Vec<&str> =
        store.list_offices().iter().map(|o| o.office_name.as_str()).collect();
    assert_eq!(names, vec!["North", "South"]);
    assert_eq!(store.get_office(2).unwrap().office_name, "South");
    assert!(store.get_office(3).is_none());
}

#[test]
fn financial_upsert_is_keyed_and_last_write_wins() {
    let mut store = Store::new();
    store.upsert_monthly_financial(fin_row(1, 2024, 1, Some(100)));
    store.upsert_monthly_financial(fin_row(1, 2024, 2, Some(200)));
    store.upsert_monthly_financial(fin_row(1, 2024, 1, Some(150)));
    assert_eq!(store.financials.len(), 2);
    assert_eq!(store.get_monthly_financial(1, 2024, 1).unwrap().revenue, Some(150));
    assert_eq!(store.get_monthly_financial(1, 2024, 2).unwrap().revenue, Some(200));
    assert!(store.get_monthly_financial(1, 2024, 3).is_none());
}

#[test]
fn ops_upsert_keyed_by_office_year_month() {
    let mut store = Store::new();
    let row = OperationsData {
        id: None,
        office_id: 4,
        year: 2024,
        month: 6,
        backlog_case_count: Some(12),
        overtime_value: Some(3_500),
        labor_model_value: None,
    };
    store.upsert_monthly_ops(row);
    let read = store.get_monthly_ops(4, 2024, 6).unwrap();
    assert_eq!(read.backlog_case_count, Some(12));
    assert_eq!(read.overtime_value, Some(3_500));
    assert!(store.get_monthly_ops(4, 2024, 7).is_none());
}

#[test]
fn notes_upsert_replaces_text() {
    let mut store = Store::new();
    store.upsert_note(NotesAction {
        id: None,
        office_id: 1,
        year: 2024,
        month: 1,
        note_text: "first".to_string(),
    });
    store.upsert_note(NotesAction {
        id: None,
        office_id: 1,
        year: 2024,
        month: 1,
        note_text: "second".to_string(),
    });
    assert_eq!(store.notes.len(), 1);
    assert_eq!(store.get_note(1, 2024, 1).unwrap().note_text, "second");
}

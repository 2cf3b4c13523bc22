use labpulse::errors::EngineError;
use labpulse::ranking::build_rankings;
use labpulse::records::{FinancialData, Office};
use labpulse::store::Store;

fn office(office_id: i64, name: &str, dfo: Option<&str>) -> Office {
    Office {
        office_id,
        office_name: name.to_string(),
        model: "PO".to_string(),
        address: Some(format!("{name} Road")),
        phone: None,
        managing_dentist: None,
        dfo: dfo.map(|s| s.to_string()),
        standardization_status: None,
    }
}

fn fin_row(office_id: i64, year: i32, month: i32, revenue: i64) -> FinancialData {
    FinancialData {
        id: None,
        office_id,
        year,
        month,
        revenue: Some(revenue),
        lab_exp_no_outside: None,
        lab_exp_with_outside: None,
        outside_lab_spend: None,
        teeth_supplies: None,
        lab_supplies: None,
        lab_hub: None,
        lss_expense: None,
        personnel_exp: None,
        overtime_exp: None,
        bonus_exp: None,
    }
}

#[test]
fn unknown_metric_ranks_every_office_with_absent_value() {
    let mut store = Store::new();
    store.upsert_office(office(1, "North", Some("Region A")));
    store.upsert_office(office(2, "South", None));
    store.upsert_office(office(3, "East", None));
    let entries = build_rankings(&store, "made_up_metric", 2024, 1, 2024, 1).unwrap();
    assert_eq!(entries.len(), 3);
    for (i, entry) in entries.iter().enumerate() {
        assert_eq!(entry.office_id, (i + 1) as i64);
        assert!(entry.value.is_none());
    }
}

#[test]
fn rankings_carry_office_identity_and_values() {
    let mut store = Store::new();
    store.upsert_office(office(1, "North", Some("Region A")));
    store.upsert_office(office(2, "South", None));
    store.upsert_monthly_financial(fin_row(2, 2024, 1, 75_000));
    let entries = build_rankings(&store, "revenue", 2024, 1, 2024, 1).unwrap();
    assert_eq!(entries.len(), 2);
    assert_eq!(entries[0].office_name, "North");
    assert_eq!(entries[0].address.as_deref(), Some("North Road"));
    assert_eq!(entries[0].dfo.as_deref(), Some("Region A"));
    assert!(entries[0].value.is_none());
    let v = entries[1].value.unwrap();
    assert_eq!((v.num, v.den), (75_000, 1));
}

#[test]
fn rankings_reject_backward_window() {
    let store = Store::new();
    assert!(matches!(
        build_rankings(&store, "revenue", 2024, 6, 2024, 5),
        Err(EngineError::InvalidRange)
    ));
}

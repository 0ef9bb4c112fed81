use zik_zak::blob::SledVarCharStore;
use zik_zak::ledger::ZikZakEngine;
use zik_zak::router::{read_field, FieldValue, RouteError};
use zik_zak::rows::{create_row, delete_row, insert_row, update_row};
use zik_zak::balances::LedgerError;

fn setup() -> (ZikZakEngine, SledVarCharStore) {
    let mut e = ZikZakEngine::new();
    e.ensure_system_accounts();
    (e, SledVarCharStore::new())
}

fn fields(v: Vec<(&str, FieldValue)>) -> Vec<(String, FieldValue)> {
    v.into_iter().map(|(k, f)| (k.to_string(), f)).collect()
}

#[test]
fn insert_update_delete_row() {
    let (mut e, mut s) = setup();
    let f = fields(vec![
        ("id", FieldValue::Number(99)),
        ("price", FieldValue::Number(1250)),
        ("active", FieldValue::Bool(true)),
        ("title", FieldValue::Text("Lamp".to_string())),
    ]);
    insert_row(&mut e, &mut s, "items", "r1", &f).unwrap();
    assert_eq!(e.get_balance("items:r1:existence"), 1);
    assert_eq!(e.get_balance("items:r1:price"), 1250);
    assert_eq!(e.get_balance("items:r1:active"), 1);
    assert_eq!(e.get_balance("items:r1:id"), 0);
    assert!(matches!(read_field(&e, &s, "items:r1:title", true), Ok(Some(FieldValue::Text(t))) if t == "Lamp"));
    let g = fields(vec![("price", FieldValue::Number(900)), ("title", FieldValue::Text("Desk lamp".to_string()))]);
    update_row(&mut e, &mut s, "items", "r1", &g).unwrap();
    update_row(&mut e, &mut s, "items", "r1", &g).unwrap();
    assert_eq!(e.get_balance("items:r1:price"), 900);
    assert_eq!(e.get_balance("items:r1:title"), 1);
    assert!(matches!(read_field(&e, &s, "items:r1:title", true), Ok(Some(FieldValue::Text(t))) if t == "Desk lamp"));
    delete_row(&mut e, "items", "r1").unwrap();
    assert_eq!(e.get_balance("items:r1:existence"), 0);
    assert_eq!(e.get_balance("items:r1:price"), 900);
    assert_eq!(delete_row(&mut e, "items", "r1"), Err(RouteError::Ledger(LedgerError::InsufficientBalance)));
}

#[test]
fn row_update_stops_at_first_refusal() {
    let (mut e, mut s) = setup();
    let f = fields(vec![
        ("a", FieldValue::Number(5)),
        ("b", FieldValue::Number(-1)),
        ("c", FieldValue::Number(7)),
    ]);
    assert_eq!(update_row(&mut e, &mut s, "t", "r", &f), Err(RouteError::Ledger(LedgerError::InvalidAmount)));
    assert_eq!(e.get_balance("t:r:a"), 5);
    assert_eq!(e.get_balance("t:r:c"), 0);
}

#[test]
fn create_row_returns_fresh_id() {
    let (mut e, mut s) = setup();
    let id = create_row(&mut e, &mut s, "notes", &fields(vec![("body", FieldValue::Text("hi".to_string()))])).unwrap();
    assert_eq!(id.len(), 36);
    assert_eq!(e.get_balance(&format!("notes:{}:existence", id)), 1);
    assert_eq!(s.get_varchar(&format!("notes:{}:body", id), "value"), Some("hi".to_string()));
}

use zik_zak::blob::SledVarCharStore;
use zik_zak::digest::blob_key;
use zik_zak::ledger::ZikZakEngine;
use zik_zak::router::{read_field, write_field, FieldValue, RouteError};

fn setup() -> (ZikZakEngine, SledVarCharStore) {
    let mut e = ZikZakEngine::new();
    e.ensure_system_accounts();
    (e, SledVarCharStore::new())
}

#[test]
fn numbers_and_booleans_are_balances() {
    let (mut e, mut s) = setup();
    write_field(&mut e, &mut s, "order:1:total", &FieldValue::Number(4200)).unwrap();
    write_field(&mut e, &mut s, "order:1:paid", &FieldValue::Bool(true)).unwrap();
    assert_eq!(e.get_balance("order:1:total"), 4200);
    assert_eq!(e.get_balance("order:1:paid"), 1);
    write_field(&mut e, &mut s, "order:1:paid", &FieldValue::Bool(false)).unwrap();
    assert_eq!(e.get_balance("order:1:paid"), 0);
    assert_eq!(s.total_records(), 0);
    assert!(matches!(read_field(&e, &s, "order:1:total", false), Ok(Some(FieldValue::Number(4200)))));
}

#[test]
fn text_goes_to_store_with_one_reference_unit() {
    let (mut e, mut s) = setup();
    write_field(&mut e, &mut s, "user:1:username", &FieldValue::Text("john_doe".to_string())).unwrap();
    write_field(&mut e, &mut s, "user:1:username", &FieldValue::Text("jane_doe".to_string())).unwrap();
    assert_eq!(e.get_balance("user:1:username"), 1);
    assert!(matches!(read_field(&e, &s, "user:1:username", true), Ok(Some(FieldValue::Text(t))) if t == "jane_doe"));
    let key = blob_key("user:1:username").to_string();
    let last = e.get_transaction_history().last().unwrap();
    assert!(last.metadata.iter().any(|(k, v)| k == "user_data_128" && *v == key));
}

#[test]
fn text_read_reports_divergence() {
    let (mut e, mut s) = setup();
    assert!(matches!(read_field(&e, &s, "user:2:bio", true), Ok(None)));
    e.transfer("system:genesis", "user:2:bio", 1, Vec::new()).unwrap();
    assert!(matches!(read_field(&e, &s, "user:2:bio", true), Err(RouteError::Conflict)));
    s.store_varchar("user:2:bio", "value", "hello", "text/plain", Vec::new());
    assert!(matches!(read_field(&e, &s, "user:2:bio", true), Ok(Some(FieldValue::Text(t))) if t == "hello"));
}

use zik_zak::balances::LedgerError;
use zik_zak::digest::derive_id;
use zik_zak::ledger::{PendingState, ZikZakEngine};

fn fresh() -> ZikZakEngine {
    let mut e = ZikZakEngine::new();
    e.ensure_system_accounts();
    e
}

fn meta(pairs: &[(&str, &str)]) -> Vec<(String, String)> {
    pairs.iter().map(|(k, v)| (k.to_string(), v.to_string())).collect()
}

#[test]
fn test_simple_tigerbeetle_operations() {
    let mut e = fresh();
    e.transfer("system:genesis", "product:123:existence", 1, Vec::new()).unwrap();
    e.transfer("system:genesis", "product:123:price", 2999, Vec::new()).unwrap();
    assert_eq!(e.get_balance("product:123:existence"), 1, "Product should exist");
    assert_eq!(e.get_balance("product:123:price"), 2999, "Product price should be $29.99");
    e.transfer("system:genesis", "user:456:existence", 1, Vec::new()).unwrap();
    e.transfer("system:genesis", "user:456:balance", 10000, Vec::new()).unwrap();
    assert_eq!(e.get_balance("user:456:balance"), 10000, "User should have $100.00");
    let purchase = meta(&[("product_id", "123"), ("transaction_type", "purchase")]);
    e.transfer("user:456:balance", "merchant:789:revenue", 2999, purchase).unwrap();
    assert_eq!(e.get_balance("user:456:balance"), 7001, "User should have $70.01 left");
    assert_eq!(e.get_balance("merchant:789:revenue"), 2999, "Merchant should have $29.99 revenue");
}

#[test]
fn end_to_end_purchase_scenario() {
    let mut e = fresh();
    e.transfer("system:genesis", "user:1:balance", 10000, Vec::new()).unwrap();
    e.transfer("system:genesis", "product:1:price", 2999, Vec::new()).unwrap();
    e.transfer("user:1:balance", "merchant:1:revenue", 2999, Vec::new()).unwrap();
    assert_eq!(e.get_balance("user:1:balance"), 7001);
    assert_eq!(e.get_balance("merchant:1:revenue"), 2999);
    assert_eq!(e.get_balance("product:1:price"), 2999);
    assert_eq!(e.get_balance("system:genesis"), -12999);
}

#[test]
fn conservation_between_ordinary_accounts() {
    let mut e = fresh();
    e.transfer("system:genesis", "a:1:balance", 500, Vec::new()).unwrap();
    e.transfer("system:genesis", "b:1:balance", 300, Vec::new()).unwrap();
    let sum = |e: &ZikZakEngine| e.get_balance("a:1:balance") + e.get_balance("b:1:balance") + e.get_balance("c:1:balance");
    let before = sum(&e);
    e.transfer("a:1:balance", "b:1:balance", 200, Vec::new()).unwrap();
    e.transfer("b:1:balance", "c:1:balance", 450, Vec::new()).unwrap();
    e.transfer("c:1:balance", "a:1:balance", 50, Vec::new()).unwrap();
    assert_eq!(sum(&e), before);
    assert_eq!(sum(&e), 800);
}

#[test]
fn overdraft_is_rejected_and_changes_nothing() {
    let mut e = fresh();
    e.transfer("system:genesis", "user:9:balance", 100, Vec::new()).unwrap();
    let count = e.get_transfer_count();
    let r = e.transfer("user:9:balance", "merchant:9:revenue", 101, Vec::new());
    assert_eq!(r, Err(LedgerError::InsufficientBalance));
    assert_eq!(e.get_balance("user:9:balance"), 100);
    assert_eq!(e.get_balance("merchant:9:revenue"), 0);
    assert_eq!(e.get_transfer_count(), count);
}

#[test]
fn non_positive_amounts_are_invalid() {
    let mut e = fresh();
    assert_eq!(e.transfer("system:genesis", "x:1:balance", 0, Vec::new()), Err(LedgerError::InvalidAmount));
    assert_eq!(e.transfer("system:genesis", "x:1:balance", -5, Vec::new()), Err(LedgerError::InvalidAmount));
    assert_eq!(e.get_transfer_count(), 0);
}

#[test]
fn credit_constrained_account_cannot_be_credited_past_zero() {
    let mut e = fresh();
    let r = e.transfer("system:genesis", "shop:1:inventory", 5, Vec::new());
    assert_eq!(r, Err(LedgerError::InsufficientBalance));
    e.transfer("shop:1:inventory", "shop:1:shelf", 5, Vec::new()).unwrap();
    assert_eq!(e.get_balance("shop:1:inventory"), -5);
    e.transfer("shop:1:shelf", "shop:1:inventory", 3, Vec::new()).unwrap();
    assert_eq!(e.get_balance("shop:1:inventory"), -2);
}

#[test]
fn genesis_balance_overflow_is_reported() {
    let mut e = fresh();
    e.transfer("system:genesis", "a:1:balance", i64::MAX, Vec::new()).unwrap();
    let r = e.transfer("system:genesis", "b:1:balance", 2, Vec::new());
    assert_eq!(r, Err(LedgerError::Overflow));
    assert_eq!(e.get_balance("system:genesis"), -i64::MAX);
}

#[test]
fn existence_round_trip() {
    let mut e = fresh();
    e.transfer("system:genesis", "product:X:existence", 1, Vec::new()).unwrap();
    assert_eq!(e.get_balance("product:X:existence"), 1);
    e.transfer("product:X:existence", "system:void", 1, Vec::new()).unwrap();
    assert_eq!(e.get_balance("product:X:existence"), 0);
    assert_eq!(e.get_balance("system:void"), 1);
}

#[test]
fn unknown_account_reads_zero() {
    let e = fresh();
    assert_eq!(e.get_balance("nobody:1:balance"), 0);
}

#[test]
fn field_update_twice_is_not_additive() {
    let mut e = fresh();
    e.update_field("product:5:price", 1500).unwrap();
    assert_eq!(e.get_balance("product:5:price"), 1500);
    e.update_field("product:5:price", 1500).unwrap();
    assert_eq!(e.get_balance("product:5:price"), 1500);
    e.update_field("product:5:price", 700).unwrap();
    assert_eq!(e.get_balance("product:5:price"), 700);
    e.update_field("product:5:price", 0).unwrap();
    assert_eq!(e.get_balance("product:5:price"), 0);
    assert_eq!(e.update_field("product:5:price", -1), Err(LedgerError::InvalidAmount));
}

#[test]
fn linked_batch_is_all_or_nothing() {
    let mut e = fresh();
    e.transfer("system:genesis", "user:1:balance", 100, Vec::new()).unwrap();
    let bad = vec![
        ("system:genesis".to_string(), "order:1:existence".to_string(), 1),
        ("user:1:balance".to_string(), "merchant:1:revenue".to_string(), 60),
        ("user:1:balance".to_string(), "merchant:1:revenue".to_string(), 60),
    ];
    assert_eq!(e.linked_batch(&bad), Err((2, LedgerError::InsufficientBalance)));
    assert_eq!(e.get_balance("order:1:existence"), 0);
    assert_eq!(e.get_balance("user:1:balance"), 100);
    assert_eq!(e.get_balance("merchant:1:revenue"), 0);
    assert_eq!(e.get_transfer_count(), 1);
    let good = vec![
        ("system:genesis".to_string(), "order:1:existence".to_string(), 1),
        ("user:1:balance".to_string(), "merchant:1:revenue".to_string(), 60),
    ];
    let ids = e.linked_batch(&good).unwrap();
    assert_eq!(ids.len(), 2);
    assert_eq!(e.get_balance("order:1:existence"), 1);
    assert_eq!(e.get_balance("user:1:balance"), 40);
    assert_eq!(e.get_transfer_count(), 3);
}

#[test]
fn pending_transfer_post_and_void() {
    let mut e = fresh();
    e.transfer("system:genesis", "user:1:balance", 100, Vec::new()).unwrap();
    let hold = e.pending_transfer("user:1:balance", "shop:1:escrow", 70, 30).unwrap();
    assert_eq!(e.get_balance("user:1:balance"), 100);
    assert_eq!(e.get_legs("user:1:balance").debits_pending, 70);
    assert_eq!(
        e.pending_transfer("user:1:balance", "shop:1:escrow", 40, 30),
        Err(LedgerError::InsufficientBalance)
    );
    assert_eq!(e.transfer("user:1:balance", "x:1:balance", 40, Vec::new()), Err(LedgerError::InsufficientBalance));
    e.post_pending(hold).unwrap();
    assert_eq!(e.get_balance("user:1:balance"), 30);
    assert_eq!(e.get_balance("shop:1:escrow"), 70);
    assert_eq!(e.get_legs("user:1:balance").debits_pending, 0);
    assert_eq!(e.post_pending(hold), Err(LedgerError::NotFound));
    let hold2 = e.pending_transfer("user:1:balance", "shop:1:escrow", 30, 30).unwrap();
    e.void_pending(hold2).unwrap();
    assert_eq!(e.get_balance("user:1:balance"), 30);
    assert_eq!(e.get_legs("user:1:balance").debits_pending, 0);
    assert_eq!(e.void_pending(99), Err(LedgerError::NotFound));
}

#[test]
fn audit_log_newest_first() {
    let mut e = fresh();
    for i in 1..=5i64 {
        e.transfer("system:genesis", "a:1:balance", i, meta(&[("n", &i.to_string())])).unwrap();
    }
    let recent = e.recent(3);
    assert_eq!(recent.len(), 3);
    assert_eq!(recent[0].amount, 5);
    assert_eq!(recent[1].amount, 4);
    assert_eq!(recent[2].amount, 3);
    assert_eq!(e.recent(50).len(), 5);
    assert_eq!(e.get_transfer_count(), 5);
    assert_eq!(e.get_transaction_history()[0].metadata, meta(&[("n", "1")]));
}

#[test]
fn transfer_ids_are_uuid_text() {
    let mut e = fresh();
    let id = e.transfer("system:genesis", "a:1:balance", 1, Vec::new()).unwrap();
    assert_eq!(id.len(), 36);
    let id2 = e.transfer("system:genesis", "a:1:balance", 1, Vec::new()).unwrap();
    assert_ne!(id, id2);
}

#[test]
fn user_data_goes_into_metadata() {
    let mut e = fresh();
    e.transfer_with_user_data("system:genesis", "p:1:name", 1, 12345678901234567890u128, meta(&[("k", "v")])).unwrap();
    let t = &e.get_transaction_history()[0];
    assert_eq!(
        t.metadata,
        meta(&[("k", "v"), ("user_data_128", "12345678901234567890"), ("sled_reference", "true")])
    );
}

#[test]
fn ensure_account_with_legs() {
    let mut e = ZikZakEngine::new();
    assert_eq!(e.ensure_account("system:treasury", 0, 1000), Ok(true));
    assert_eq!(e.get_balance("system:treasury"), 1000);
    assert_eq!(e.ensure_account("system:treasury", 0, 5), Ok(false));
    assert_eq!(e.get_balance("system:treasury"), 1000);
    assert_eq!(e.ensure_account("user:1:balance", 10, 0), Err(LedgerError::InsufficientBalance));
    assert_eq!(e.ensure_account("system:genesis", 1000, 0), Ok(true));
    assert_eq!(e.get_balance("system:genesis"), -1000);
    assert_eq!(e.get_account_count(), 2);
}

#[test]
fn pending_state_starts_pending() {
    assert_ne!(PendingState::Pending, PendingState::Posted);
}

#[test]
fn account_and_transfer_records() {
    let mut e = fresh();
    e.transfer("system:genesis", "user:1:balance", 250, Vec::new()).unwrap();
    e.transfer("user:1:balance", "merchant:1:revenue", 50, Vec::new()).unwrap();
    e.transfer("system:genesis", "other:2:balance", 5, Vec::new()).unwrap();
    let a = e.get_account_info("user:1:balance").unwrap();
    assert_eq!(a.id, derive_id("user:1:balance"));
    assert_eq!(a.zak_balance, 200);
    assert_eq!(a.zik_balance, 0);
    assert_eq!(a.code, 5);
    assert_eq!(a.flags, 10);
    assert_eq!(a.user_data_128, derive_id("user:1"));
    let g = e.get_account_info("system:genesis").unwrap();
    assert_eq!(g.zik_balance, 255);
    assert!(e.get_account_info("nobody").is_none());
    let ts = e.get_account_transfers("user:1:balance", 10);
    assert_eq!(ts.len(), 2);
    assert_eq!(ts[0].amount, 50);
    assert_eq!(ts[0].zak_account_id, derive_id("merchant:1:revenue"));
    assert_eq!(ts[0].id, 2);
    assert_eq!(ts[1].id, 1);
    assert_eq!(ts[1].code, 1);
    assert_eq!(e.get_account_transfers("user:1:balance", 1).len(), 1);
}

#[test]
fn query_accounts_by_code_newest_first() {
    let mut e = fresh();
    e.transfer("system:genesis", "p:1:price", 10, Vec::new()).unwrap();
    e.transfer("system:genesis", "p:1:existence", 1, Vec::new()).unwrap();
    e.transfer("system:genesis", "p:2:price", 20, Vec::new()).unwrap();
    let prices = e.query_accounts(1, 5, 10);
    let names: Vec<&str> = prices.iter().map(|a| a.name.as_str()).collect();
    assert_eq!(names, vec!["p:2:price", "p:1:price"]);
    assert_eq!(prices[0].zak_balance, 20);
    assert_eq!(e.query_accounts(0, 5, 1).len(), 1);
    assert_eq!(e.query_accounts(1, 1, 10).len(), 1);
    assert_eq!(e.get_all_accounts().len(), e.get_account_count());
    assert_eq!(e.query_accounts(0, 0, 2)[0].name, "p:2:price");
}

#[test]
fn test_complex_business_logic_with_pure_accounting() {
    let mut e = fresh();
    for product_id in 1..=3i64 {
        e.transfer("system:genesis", &format!("inventory:product_{}:stock", product_id), 100, Vec::new()).unwrap();
        e.transfer("system:genesis", &format!("inventory:product_{}:price", product_id), 1000 + product_id * 500, Vec::new())
            .unwrap();
    }
    for user_id in 1..=3i64 {
        e.transfer("system:genesis", &format!("user:{}:balance", user_id), 5000 + user_id * 2000, Vec::new()).unwrap();
    }
    for (user_id, product_id, quantity) in [(1, 1, 2), (2, 2, 1), (3, 3, 3), (1, 2, 1)] {
        let price = e.get_balance(&format!("inventory:product_{}:price", product_id));
        let total_cost = price * quantity;
        e.transfer(
            &format!("inventory:product_{}:stock", product_id),
            &format!("inventory:product_{}:sold", product_id),
            quantity,
            Vec::new(),
        )
        .unwrap();
        e.transfer(&format!("user:{}:balance", user_id), &format!("merchant:revenue:product_{}", product_id), total_cost, Vec::new())
            .unwrap();
        e.transfer("system:genesis", &format!("user:{}:purchases:product_{}", user_id, product_id), quantity, Vec::new())
            .unwrap();
    }
    assert_eq!(e.get_balance("inventory:product_1:stock"), 98);
    assert_eq!(e.get_balance("inventory:product_2:sold"), 2);
    assert_eq!(e.get_balance("inventory:product_3:stock"), 97);
    assert_eq!(e.get_balance("user:1:balance"), 2000);
    assert_eq!(e.get_balance("user:2:balance"), 7000);
    assert_eq!(e.get_balance("user:3:balance"), 3500);
    assert_eq!(e.get_balance("merchant:revenue:product_2"), 4000);
    assert_eq!(e.get_balance("user:1:purchases:product_2"), 1);
}

#[test]
fn query_on_another_ledger_is_empty() {
    let mut e = fresh();
    e.transfer("system:genesis", "p:1:price", 10, Vec::new()).unwrap();
    assert_eq!(e.query_accounts(7, 0, 10).len(), 0);
}

#[test]
fn unlinked_batch_stops_at_first_refusal() {
    let mut e = fresh();
    let batch = vec![
        ("system:genesis".to_string(), "a:1:balance".to_string(), 10),
        ("a:1:balance".to_string(), "b:1:balance".to_string(), 50),
        ("system:genesis".to_string(), "c:1:balance".to_string(), 5),
    ];
    assert_eq!(e.create_transfers_batch(&batch), Err((1, LedgerError::InsufficientBalance)));
    assert_eq!(e.get_balance("a:1:balance"), 10);
    assert_eq!(e.get_balance("c:1:balance"), 0);
    let ok = vec![("a:1:balance".to_string(), "b:1:balance".to_string(), 4)];
    assert_eq!(e.create_transfers_batch(&ok).unwrap().len(), 1);
    assert_eq!(e.get_balance("b:1:balance"), 4);
}

#[test]
fn log_times_never_decrease_and_ids_differ() {
    let mut e = fresh();
    e.transfer_at("system:genesis", "a:1:balance", 1, Vec::new(), "id-1".to_string(), 500).unwrap();
    let second = e.transfer_at("system:genesis", "a:1:balance", 1, Vec::new(), "id-1".to_string(), 100).unwrap();
    assert_ne!(second, "id-1");
    let h = e.get_transaction_history();
    assert_eq!(h[1].timestamp, 500);
    let ts = e.get_account_transfers("a:1:balance", 10);
    assert!(ts[0].timestamp >= ts[1].timestamp);
}

use zik_zak::addressing::{
    classify, constraint_side, determine_account_properties, determine_transfer_code,
    is_permission_account, is_zik_account, net_balance, split_segments, to_zak, to_zik,
    ConstraintSide, ZikZakOperationCode,
};
use zik_zak::digest::{blob_key, content_hash, derive_id, hash_string};
use zik_zak::ids::{compose_random_id, compose_time_based_id, compose_transfer_id, generate_random_id, generate_transfer_id};
use zik_zak::ledger::ZikZakEngine;

#[test]
fn derive_id_matches_sha256_prefix() {
    assert_eq!(derive_id("system:genesis"), 122756044452705331515886556840751556679u128);
    assert_eq!(derive_id("product:123:price"), 69934478303787773154081209873392899126u128);
    assert_eq!(derive_id("user:1:balance"), 30193656936009795750516070281129630118u128);
}

#[test]
fn derive_id_is_deterministic_and_distinct() {
    assert_eq!(derive_id("product:42:price"), derive_id("product:42:price"));
    let mut ids = Vec::new();
    for i in 0..2000u32 {
        ids.push(derive_id(&format!("product:{}:price", i)));
        ids.push(derive_id(&format!("user:{}:balance", i)));
    }
    let n = ids.len();
    ids.sort();
    ids.dedup();
    assert_eq!(ids.len(), n);
}

#[test]
fn content_hash_reads_signed_big_endian() {
    assert_eq!(content_hash("hello"), 3238736544897475342);
    assert_eq!(content_hash("John Doe"), 7848181795599989802);
    assert_eq!(content_hash("widget"), -8448400169396171410);
}

#[test]
fn hash_string_is_absolute_content_hash() {
    assert_eq!(hash_string("widget"), 8448400169396171410);
    assert_eq!(hash_string("hello"), 3238736544897475342);
    assert_eq!(ZikZakEngine::hash_string("widget"), 8448400169396171410);
}

#[test]
fn blob_key_depends_on_account_only() {
    assert_eq!(blob_key("product:1:name"), blob_key("product:1:name"));
    assert_ne!(blob_key("product:1:name"), blob_key("product:2:name"));
    assert!(blob_key("product:1:name") <= u64::MAX as u128);
}

#[test]
fn classify_by_name_shape() {
    let g = classify("system:genesis");
    assert!(g.is_system);
    assert!(!g.is_existence);
    assert_eq!(g.side, ConstraintSide::Credit);
    let e = classify("product:7:existence");
    assert!(e.is_existence);
    assert!(!e.is_system);
    assert_eq!(e.side, ConstraintSide::Debit);
    assert!(classify("user:1:admin").is_permission);
    assert!(classify("user:1:write:products").is_permission);
    assert!(classify("products:9:owner:1").is_permission);
    assert!(!classify("user:1:balance").is_permission);
    assert!(!is_permission_account("product:1:price"));
}

#[test]
fn outflow_accounts_are_credit_constrained() {
    assert!(is_zik_account("store:1:inventory"));
    assert!(is_zik_account("company:cash"));
    assert!(!is_zik_account("inventory:product_1:stock"));
    assert_eq!(constraint_side("user:1:balance"), ConstraintSide::Debit);
    assert_eq!(constraint_side("dept:2:expense"), ConstraintSide::Credit);
}

#[test]
fn account_properties_codes_and_flags() {
    assert_eq!(determine_account_properties("system:void"), (100, 2));
    assert_eq!(determine_account_properties("system:genesis"), (100, 4));
    assert_eq!(determine_account_properties("user:1:balance"), (5, 10));
    assert_eq!(determine_account_properties("product:1:existence"), (1, 2));
    assert_eq!(determine_account_properties("order:3:status"), (7, 10));
    assert_eq!(ZikZakOperationCode::Genesis.code(), 100);
}

#[test]
fn transfer_codes() {
    assert_eq!(determine_transfer_code("system:genesis", "product:1:price"), 1);
    assert_eq!(determine_transfer_code("product:1:existence", "system:void"), 3);
    assert_eq!(determine_transfer_code("product:1:existence", "system:deleted"), 3);
    assert_eq!(determine_transfer_code("user:1:balance", "product:1:price"), 5);
    assert_eq!(determine_transfer_code("user:1:balance", "merchant:1:revenue"), 7);
}

#[test]
fn split_into_segments() {
    let s = split_segments("user:1:write:products");
    let joined: Vec<String> = s.iter().map(|v| v.iter().collect()).collect();
    assert_eq!(joined, vec!["user", "1", "write", "products"]);
    assert_eq!(split_segments("").len(), 1);
    assert_eq!(split_segments("a::b").len(), 3);
}

#[test]
fn signed_legs() {
    assert_eq!(to_zik(5), 5);
    assert_eq!(to_zik(-5), 0);
    assert_eq!(to_zak(-5), 5);
    assert_eq!(to_zak(5), 0);
    assert_eq!(to_zak(i64::MIN), 9223372036854775808u128);
    assert_eq!(net_balance(3, 10), 7);
    assert_eq!(net_balance(10, 3), -7);
}

#[test]
fn derive_id_no_collisions_in_large_corpus() {
    let mut ids: Vec<u128> = (0..300_000u32).map(|i| derive_id(&format!("entity:{}:field_{}", i, i % 7))).collect();
    let n = ids.len();
    ids.sort_unstable();
    ids.dedup();
    assert_eq!(ids.len(), n);
}

#[test]
fn record_identifiers_compose() {
    assert_eq!(compose_random_id(1, 2), (1u128 << 64) | 2);
    assert_eq!(compose_time_based_id(1, 2, 3), (1u128 << 80) | (2u128 << 16) | 3);
    assert_eq!(compose_transfer_id(0b1100, 0b1010, 0b0110, 0b0001), 0b1100 ^ 0b1010 ^ 0b0110 ^ 0b0001);
    assert_ne!(generate_random_id(), generate_random_id());
    assert_ne!(generate_transfer_id(5, 9), generate_transfer_id(5, 9));
}

use zik_zak::blob::SledVarCharStore;
use zik_zak::product::ZikZakSledEngine;

fn pairs(p: &[(&str, &str)]) -> Vec<(String, String)> {
    p.iter().map(|(k, v)| (k.to_string(), v.to_string())).collect()
}

#[test]
fn test_sled_varchar_storage() {
    let mut store = SledVarCharStore::new();
    store.store_varchar("user:123", "name", "John Doe", "text", pairs(&[("type", "user_name")]));
    store.store_varchar("user:123", "email", "john@example.com", "email", Vec::new());
    assert_eq!(store.get_varchar("user:123", "name"), Some("John Doe".to_string()));
    assert_eq!(store.get_varchar("user:123", "email"), Some("john@example.com".to_string()));
    let all = store.get_account_varchars("user:123");
    assert_eq!(all.len(), 2);
    assert_eq!(all, pairs(&[("name", "John Doe"), ("email", "john@example.com")]));
    store.update_varchar("user:123", "name", "Jane Doe");
    assert_eq!(store.get_varchar("user:123", "name"), Some("Jane Doe".to_string()));
    assert!(store.delete_varchar("user:123", "email"));
    assert_eq!(store.get_varchar("user:123", "email"), None);
}

#[test]
fn blob_round_trip_and_delete() {
    let mut store = SledVarCharStore::new();
    let key = store.store_varchar("doc:1", "body", "héllo wörld ✓", "text", Vec::new());
    assert_eq!(key, "doc:1:body");
    assert_eq!(store.get_varchar("doc:1", "body"), Some("héllo wörld ✓".to_string()));
    assert!(store.delete_varchar("doc:1", "body"));
    assert_eq!(store.get_varchar("doc:1", "body"), None);
    assert!(!store.delete_varchar("doc:1", "body"));
    assert_eq!(store.total_records(), 0);
}

#[test]
fn same_content_shares_one_hash_bucket() {
    let mut store = SledVarCharStore::new();
    store.store_varchar("user:1", "bio", "same words", "text", Vec::new());
    store.store_varchar("user:2", "bio", "same words", "text", Vec::new());
    store.store_varchar("user:3", "bio", "other words", "text", Vec::new());
    let keys = store.find_by_content_hash("same words");
    assert_eq!(keys, vec!["user:1:bio".to_string(), "user:2:bio".to_string()]);
    assert_eq!(store.find_by_content_hash("nothing stored"), Vec::<String>::new());
}

#[test]
fn storing_again_replaces_in_place() {
    let mut store = SledVarCharStore::new();
    store.store_varchar("a", "f", "one", "text", Vec::new());
    store.store_varchar("a", "g", "two", "text", Vec::new());
    store.store_varchar("a", "f", "three", "text", Vec::new());
    assert_eq!(store.total_records(), 2);
    assert_eq!(store.get_account_varchars("a"), pairs(&[("f", "three"), ("g", "two")]));
    assert_eq!(store.find_by_content_hash("one"), Vec::<String>::new());
    store.update_varchar("b", "h", "new");
    assert_eq!(store.get_varchar("b", "h"), Some("new".to_string()));
}

#[test]
fn test_complete_zik_zak_sled_engine() {
    let mut engine = ZikZakSledEngine::new();
    let product_id = engine
        .create_product("12345", "ZIK_ZAK T-Shirt", "Revolutionary accounting engine merchandise", 2999, "Apparel")
        .unwrap();
    let product = engine.get_product(&product_id);
    assert!(product.is_some());
    let p = product.unwrap();
    assert_eq!(p.id, "12345");
    assert_eq!(p.price_cents, 2999);
    assert_eq!(p.name, "ZIK_ZAK T-Shirt");
    assert_eq!(p.category, "Apparel");
    engine.update_product_field("12345", "description", "Updated: The best accounting engine merch!");
    let updated = engine.get_product("12345").unwrap();
    assert_eq!(updated.description, "Updated: The best accounting engine merch!");
    let stats = engine.get_system_stats();
    assert!(stats.accounts > 0);
    assert!(stats.total_records > 0);
    assert!(stats.connected);
}

#[test]
fn missing_product_and_defaults() {
    let mut engine = ZikZakSledEngine::new();
    assert!(engine.get_product("404").is_none());
    engine.accounting.transfer("system:genesis", "product:7:existence", 1, Vec::new()).unwrap();
    let p = engine.get_product("7").unwrap();
    assert_eq!(p.name, "Unknown");
    assert_eq!(p.description, "No description");
    assert_eq!(p.category, "Uncategorized");
    assert_eq!(p.price_cents, 0);
}

use zik_zak::permission::{extract_user_id, SecurityError, ZikZakSecurityEngine};

#[test]
fn write_grant_without_ownership_is_denied_until_owned_or_admin() {
    let mut s = ZikZakSecurityEngine::new();
    s.grant_permission("root", "u1", "write:products").unwrap();
    assert!(!s.can_access_resource("u1", "products", "prod9", "write"));
    s.grant_ownership("products", "prod9", "u1").unwrap();
    assert!(s.can_access_resource("u1", "products", "prod9", "write"));
    assert!(!s.can_access_resource("u1", "products", "prod10", "write"));
    s.grant_permission("root", "u1", "admin").unwrap();
    assert!(s.can_access_resource("u1", "products", "prod10", "write"));
    assert!(s.can_access_resource("u1", "orders", "o1", "delete"));
}

#[test]
fn read_grant_allows_without_ownership() {
    let mut s = ZikZakSecurityEngine::new();
    s.grant_permission("root", "u2", "read:products").unwrap();
    assert!(s.can_access_resource("u2", "products", "any", "read"));
    assert!(!s.can_access_resource("u2", "orders", "any", "read"));
    s.grant_permission("root", "u2", "read:all").unwrap();
    assert!(s.can_access_resource("u2", "orders", "any", "read"));
}

#[test]
fn owner_always_has_access() {
    let mut s = ZikZakSecurityEngine::new();
    s.grant_ownership("docs", "d1", "u3").unwrap();
    assert!(s.can_access_resource("u3", "docs", "d1", "delete"));
    assert!(!s.can_access_resource("u4", "docs", "d1", "read"));
}

#[test]
fn revoke_removes_permission() {
    let mut s = ZikZakSecurityEngine::new();
    s.grant_permission("root", "u5", "admin").unwrap();
    assert!(s.has_permission("user:u5:admin"));
    s.revoke_permission("u5", "admin").unwrap();
    assert!(!s.has_permission("user:u5:admin"));
    assert_eq!(s.ledger().get_balance("system:void"), 1);
}

#[test]
fn create_user_grants_by_role() {
    let mut s = ZikZakSecurityEngine::new();
    let admin = s.create_user("a@x.io", "admin", Some("t1")).unwrap();
    assert!(admin.starts_with("user_"));
    assert!(s.has_permission(&format!("user:{}:admin", admin)));
    assert!(s.has_permission(&format!("user:{}:existence", admin)));
    assert!(s.has_permission(&format!("tenant:t1:member:{}", admin)));
    let cust = s.create_user("c@x.io", "customer", None).unwrap();
    assert!(s.can_access_resource(&cust, "products", "prod1", "read"));
    assert!(!s.can_access_resource(&cust, "products", "prod1", "write"));
    assert_eq!(s.create_user("z@x.io", "wizard", None), Err(SecurityError::InvalidRole));
}

#[test]
fn create_resource_sets_owner() {
    let mut s = ZikZakSecurityEngine::new();
    let rid = s.create_resource("product", "user_7", Some("t9")).unwrap();
    assert!(s.has_permission(&format!("product:{}:existence", rid)));
    assert!(s.can_access_resource("user_7", "product", &rid, "write"));
    assert!(s.has_permission(&format!("product:{}:tenant:t9", rid)));
    let (page, total) = s.audit_trail(2);
    assert_eq!(total, 3);
    assert_eq!(page.len(), 2);
    assert_eq!(page[0].to_account, format!("product:{}:tenant:t9", rid));
}

#[test]
fn bearer_tokens() {
    assert_eq!(extract_user_id(Some("Bearer user_42")), Ok("user_42".to_string()));
    assert_eq!(extract_user_id(Some("Bearer admin")), Err(SecurityError::InvalidToken));
    assert_eq!(extract_user_id(Some("Basic user_42")), Err(SecurityError::MissingToken));
    assert_eq!(extract_user_id(None), Err(SecurityError::MissingToken));
}

#[test]
fn security_stats_count_positive_structured_accounts() {
    let mut s = ZikZakSecurityEngine::new();
    let before = s.security_stats();
    assert_eq!(before.total_permissions, 0);
    assert_eq!(before.total_transactions, 0);
    s.grant_permission("root", "u9", "admin").unwrap();
    s.grant_permission("root", "u9", "read:all").unwrap();
    s.revoke_permission("u9", "admin").unwrap();
    let stats = s.security_stats();
    assert_eq!(stats.total_transactions, 3);
    assert_eq!(stats.total_permissions, 2);
    assert_eq!(stats.total_accounts, before.total_accounts + 2);
}

#[test]
fn audit_trail_needs_admin_and_defaults_to_fifty() {
    let mut s = ZikZakSecurityEngine::new();
    assert_eq!(s.audit_trail_for("u1", None).err(), Some(SecurityError::Forbidden));
    s.grant_permission("root", "u1", "admin").unwrap();
    for i in 0..60 {
        s.grant_permission("root", &format!("x{}", i), "read:all").unwrap();
    }
    let (page, total) = s.audit_trail_for("u1", None).unwrap();
    assert_eq!(page.len(), 50);
    assert_eq!(total, 61);
    assert_eq!(s.audit_trail_for("u1", Some(3)).unwrap().0.len(), 3);
}

#[test]
fn users_and_resources_under_given_ids() {
    let mut s = ZikZakSecurityEngine::new();
    s.create_user_with_id("user_fixed", "f@x.io", "manager", None).unwrap();
    assert!(s.has_permission("user:user_fixed:write:products"));
    assert!(s.has_permission("user:user_fixed:existence"));
    s.create_resource_with_id("docs", "d7", "user_fixed", None).unwrap();
    assert!(s.can_access_resource("user_fixed", "docs", "d7", "delete"));
}

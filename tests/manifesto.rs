use zik_zak::{MANIFESTO, VERSION};

#[test]
fn test_manifesto_contains_truth() {
    assert!(MANIFESTO.contains("Everything is accounting"));
    assert!(MANIFESTO.contains("Backend development is dead"));
}

#[test]
fn test_version_exists() {
    assert!(!VERSION.is_empty());
}

#[test]
fn test_zik_zak_manifesto() {
    println!("{}", MANIFESTO);
    println!("Version: {}", VERSION);
    assert!(MANIFESTO.contains("Everything is accounting"));
    assert!(MANIFESTO.contains("Backend development is dead"));
    assert!(MANIFESTO.contains("GENESIS"));
}

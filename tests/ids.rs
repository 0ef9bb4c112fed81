use std::collections::HashSet;
use zik_zak::digest::derive_id;
use zik_zak::ids::{generate_random_id, generate_time_based_id, generate_transfer_id};

#[test]
fn test_id_uniqueness_guarantees() {
    let mut ids = HashSet::new();
    for i in 0..100_000u32 {
        let id = if i % 2 == 0 { generate_time_based_id() } else { generate_random_id() };
        assert!(ids.insert(id), "Duplicate ID found: {}", id);
    }
    let mut transfer_ids = HashSet::new();
    for i in 0..10_000u32 {
        let from_account = derive_id(&format!("account_{}", i % 100));
        let to_account = derive_id(&format!("account_{}", (i + 1) % 100));
        let transfer_id = generate_transfer_id(from_account, to_account);
        assert!(transfer_ids.insert(transfer_id), "Duplicate transfer ID: {}", transfer_id);
    }
}

#[test]
fn test_id_entropy_distribution() {
    let sample_size = 10_000u32;
    let mut bit_counts = [0u32; 128];
    for _ in 0..sample_size {
        let id = generate_random_id();
        for bit_pos in 0..128 {
            if (id >> bit_pos) & 1 == 1 {
                bit_counts[bit_pos] += 1;
            }
        }
    }
    for (bit_pos, count) in bit_counts.iter().enumerate() {
        assert!(*count >= 4_500 && *count <= 5_500, "Bit {} has poor distribution: {}", bit_pos, count);
    }
}

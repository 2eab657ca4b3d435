use ondris::block::merkle_root;
use ondris::difficulty::{next_difficulty, target_for_difficulty, MAX_TARGET};
use ondris::pow::{meets_target, ondris_hash_with_sizes, Dataset};
use ondris::primitives::{Address, Hash256, KeyPair};

fn tiny_dataset() -> Dataset {
    Dataset::generate_with_sizes(0, Hash256::hash(b"test-seed"), 4096, 8192)
}

#[test]
fn empty_merkle_root_is_zero() {
    assert_eq!(merkle_root(&[]), Hash256([0u8; 32]));
}

#[test]
fn single_leaf_root_equals_the_leaf_itself() {
    let h = Hash256::hash(b"tx1");
    assert_eq!(merkle_root(&[h]), h);
}

#[test]
fn odd_number_of_leaves_duplicates_the_last_one() {
    let h1 = Hash256::hash(b"tx1");
    let h2 = Hash256::hash(b"tx2");
    let h3 = Hash256::hash(b"tx3");
    let root = merkle_root(&[h1, h2, h3]);

    let mut left = Vec::new();
    left.extend_from_slice(h1.as_bytes());
    left.extend_from_slice(h2.as_bytes());
    let left_hash = Hash256::hash(&left);

    let mut right = Vec::new();
    right.extend_from_slice(h3.as_bytes());
    right.extend_from_slice(h3.as_bytes());
    let right_hash = Hash256::hash(&right);

    let mut top = Vec::new();
    top.extend_from_slice(left_hash.as_bytes());
    top.extend_from_slice(right_hash.as_bytes());
    assert_eq!(root, Hash256::hash(&top));
}

#[test]
fn difficulty_one_gives_max_target() {
    assert_eq!(target_for_difficulty(1), MAX_TARGET);
}

#[test]
fn higher_difficulty_gives_smaller_target() {
    let t1 = target_for_difficulty(1000);
    let t2 = target_for_difficulty(2000);
    assert!(t2 < t1);
}

#[test]
fn faster_blocks_increase_difficulty() {
    let d = next_difficulty(1000, 15, 30, 60);
    assert!(d > 1000);
}

#[test]
fn slower_blocks_decrease_difficulty() {
    let d = next_difficulty(1000, 60 * 60 * 2, 30, 60);
    assert!(d < 1000);
}

#[test]
fn deterministic_for_same_input() {
    let ds = tiny_dataset();
    let header = b"header-bytes";
    let a = ondris_hash_with_sizes(header, 42, &ds, 4096, 2);
    let b = ondris_hash_with_sizes(header, 42, &ds, 4096, 2);
    assert_eq!(a, b);
}

#[test]
fn different_nonce_changes_hash() {
    let ds = tiny_dataset();
    let header = b"header-bytes";
    let a = ondris_hash_with_sizes(header, 1, &ds, 4096, 2);
    let b = ondris_hash_with_sizes(header, 2, &ds, 4096, 2);
    assert_ne!(a, b);
}

#[test]
fn different_epoch_seed_changes_dataset() {
    let ds1 = Dataset::generate_with_sizes(0, Hash256::hash(b"seed-a"), 4096, 8192);
    let ds2 = Dataset::generate_with_sizes(0, Hash256::hash(b"seed-b"), 4096, 8192);
    let header = b"header-bytes";
    let a = ondris_hash_with_sizes(header, 1, &ds1, 4096, 2);
    let b = ondris_hash_with_sizes(header, 1, &ds2, 4096, 2);
    assert_ne!(a, b);
}

#[test]
fn meets_target_boundary() {
    let low = Hash256([0u8; 32]);
    let high = Hash256([0xff; 32]);
    let target = [0x00; 32];
    assert!(meets_target(&low, &target) || low.to_u256_be() == [0u8; 32]);
    assert!(!meets_target(&high, &target));
}

#[test]
fn hash_is_deterministic() {
    let a = Hash256::hash(b"ondris");
    let b = Hash256::hash(b"ondris");
    assert_eq!(a, b);
}

#[test]
fn sign_and_verify_roundtrip() {
    let kp = KeyPair::generate();
    let msg = b"transfer 10 ONDR";
    let sig = kp.sign(msg);
    assert!(kp.public().verify(msg, &sig));
    assert!(!kp.public().verify(b"transfer 11 ONDR", &sig));
}

#[test]
fn address_roundtrip_through_string() {
    let kp = KeyPair::generate();
    let addr = kp.address();
    let s = addr.to_string();
    let parsed: Address = s.parse().unwrap();
    assert_eq!(addr, parsed);
}

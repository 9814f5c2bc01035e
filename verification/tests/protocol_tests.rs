//! Subscription keys and hex formatting.

use fswatchd::hexfmt::{to_hex16, to_hex32};
use fswatchd::protocol::make_subscription_key;

#[test]
fn test_subscription_key_deterministic() {
    let key1 = make_subscription_key("/repo", "src", "**/*.rs");
    let key2 = make_subscription_key("/repo", "src", "**/*.rs");
    assert_eq!(key1, key2);
    assert_eq!(key1.len(), 32); // 128-bit hex
}

#[test]
fn test_subscription_key_unique() {
    let key1 = make_subscription_key("/repo", "src", "**/*.rs");
    let key2 = make_subscription_key("/repo", "lib", "**/*.rs");
    let key3 = make_subscription_key("/other", "src", "**/*.rs");
    assert_ne!(key1, key2);
    assert_ne!(key1, key3);
}

#[test]
fn test_subscription_key_matches_reference_hash() {
    let key = make_subscription_key("/repo", "src", "**/*.rs");
    let pre = format!("{}\0{}\0{}", "/repo", "src", "**/*.rs");
    let expected = format!("{:032x}", xxhash_rust::xxh3::xxh3_128(pre.as_bytes()));
    assert_eq!(key, expected);
}

#[test]
fn test_subscription_key_is_lowercase_hex() {
    let key = make_subscription_key("/tmp/t3", ".", "*.log");
    assert!(key.chars().all(|c| c.is_ascii_hexdigit() && !c.is_ascii_uppercase()));
}

#[test]
fn test_hex_formatting_widths_and_values() {
    assert_eq!(to_hex16(0), "0000000000000000");
    assert_eq!(to_hex16(0xdeadbeef), "00000000deadbeef");
    assert_eq!(to_hex16(u64::MAX), "ffffffffffffffff");
    assert_eq!(to_hex16(0x0123456789abcdef), "0123456789abcdef");
    assert_eq!(to_hex32(0), "00000000000000000000000000000000");
    assert_eq!(to_hex32(1), "00000000000000000000000000000001");
    assert_eq!(to_hex32(u128::MAX), "ffffffffffffffffffffffffffffffff");
    let v: u64 = 0x1a2b3c4d5e6f7081;
    assert_eq!(to_hex16(v), format!("{:016x}", v));
}

use cachelito_core::cache_entry::{ttl_exceeded, CacheEntry};
use std::time::{Duration, Instant};

#[test]
fn test_new_entry_not_expired() {
    let entry = CacheEntry::new(42);
    assert_eq!(entry.value, 42);
    assert!(!entry.is_expired(Some(10)));
}

#[test]
fn entry_without_ttl_never_expires() {
    let entry = CacheEntry::new(100);
    assert!(!entry.is_expired(None));
}

#[test]
fn entry_older_than_ttl_is_expired() {
    let entry = CacheEntry {
        value: "data",
        inserted_at: Instant::now() - Duration::from_secs(5),
        frequency: 0,
    };
    assert!(entry.is_expired(Some(1)));
    assert!(entry.is_expired(Some(4)));
    assert!(!entry.is_expired(Some(10)));
    assert!(entry.age_secs() >= 5);
}

#[test]
fn ttl_boundary_is_inclusive() {
    assert!(!ttl_exceeded(0, None));
    assert!(!ttl_exceeded(u64::MAX, None));
    assert!(ttl_exceeded(3, Some(3)));
    assert!(ttl_exceeded(4, Some(3)));
    assert!(!ttl_exceeded(2, Some(3)));
    assert!(ttl_exceeded(0, Some(0)));
}

#[test]
fn entry_starts_unaccessed_and_counts_saturating() {
    let mut entry = CacheEntry::new("v");
    assert_eq!(entry.frequency, 0);
    entry.increment_frequency();
    entry.increment_frequency();
    assert_eq!(entry.frequency, 2);
    entry.frequency = u64::MAX;
    entry.increment_frequency();
    assert_eq!(entry.frequency, u64::MAX);
}

#[test]
fn cloned_entry_keeps_value_time_and_count() {
    let mut entry = CacheEntry::new(String::from("v"));
    entry.increment_frequency();
    let copy = entry.clone();
    assert_eq!(copy.value, "v");
    assert_eq!(copy.inserted_at, entry.inserted_at);
    assert_eq!(copy.frequency, 1);
}

#[test]
fn zero_ttl_has_always_expired() {
    let entry = CacheEntry::new(1u8);
    assert!(entry.is_expired(Some(0)));
}

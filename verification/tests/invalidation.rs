use cachelito_core::invalidation::{InvalidationMetadata, InvalidationRegistry};
use std::collections::HashMap;

/// Runs the clear action of every named cache, counting calls per cache.
fn run_clear_actions(names: &[String], calls: &mut HashMap<String, usize>) {
    for n in names {
        *calls.entry(n.clone()).or_insert(0) += 1;
    }
}

/// A selective-invalidation action over a fixed set of keys: it returns the
/// keys that the check selects.
fn check_keys(keys: &[&str], check: &dyn Fn(&str) -> bool) -> Vec<String> {
    keys.iter().filter(|k| check(k)).map(|k| k.to_string()).collect()
}

#[test]
fn invalidation_test_tag_based_invalidation() {
    let mut registry = InvalidationRegistry::new();
    let mut calls = HashMap::new();

    registry.register("cache1", InvalidationMetadata::new(vec!["user_data".to_string()], vec![], vec![]));
    registry.register("cache2", InvalidationMetadata::new(vec!["user_data".to_string()], vec![], vec![]));

    registry.register_callback("cache1");
    registry.register_callback("cache2");

    let names = registry.invalidate_by_tag("user_data");
    run_clear_actions(&names, &mut calls);
    let count = names.len();
    assert_eq!(count, 2);
    assert_eq!(calls.get("cache1"), Some(&1));
    assert_eq!(calls.get("cache2"), Some(&1));
}

#[test]
fn invalidation_test_event_based_invalidation() {
    let mut registry = InvalidationRegistry::new();
    let mut calls = HashMap::new();

    registry.register("cache1", InvalidationMetadata::new(vec![], vec!["user_updated".to_string()], vec![]));
    registry.register_callback("cache1");

    let names = registry.invalidate_by_event("user_updated");
    run_clear_actions(&names, &mut calls);
    assert_eq!(names.len(), 1);
    assert_eq!(calls.get("cache1"), Some(&1));
}

#[test]
fn invalidation_test_dependency_based_invalidation() {
    let mut registry = InvalidationRegistry::new();
    let mut calls = HashMap::new();

    registry.register("cache1", InvalidationMetadata::new(vec![], vec![], vec!["get_user".to_string()]));
    registry.register_callback("cache1");

    let names = registry.invalidate_by_dependency("get_user");
    run_clear_actions(&names, &mut calls);
    assert_eq!(names.len(), 1);
    assert_eq!(calls.get("cache1"), Some(&1));
}

#[test]
fn test_get_caches_by_tag() {
    let mut registry = InvalidationRegistry::new();

    registry.register("cache1", InvalidationMetadata::new(vec!["tag1".to_string()], vec![], vec![]));
    registry.register("cache2", InvalidationMetadata::new(vec!["tag1".to_string()], vec![], vec![]));

    let caches = registry.get_caches_by_tag("tag1");
    assert_eq!(caches.len(), 2);
    assert!(caches.contains(&"cache1".to_string()));
    assert!(caches.contains(&"cache2".to_string()));
}

#[test]
fn test_invalidate_specific_cache() {
    let mut registry = InvalidationRegistry::new();
    let mut calls = HashMap::new();

    registry.register_callback("cache1");

    assert!(registry.invalidate_cache("cache1"));
    run_clear_actions(&["cache1".to_string()], &mut calls);
    assert_eq!(calls.get("cache1"), Some(&1));

    assert!(!registry.invalidate_cache("cache2"));
}

#[test]
fn test_clear_registry() {
    let mut registry = InvalidationRegistry::new();
    registry.register("cache1", InvalidationMetadata::new(vec!["t".to_string()], vec![], vec![]));
    registry.register_callback("cache1");
    registry.clear();
    assert!(registry.get_caches_by_tag("t").is_empty());
    assert!(!registry.invalidate_cache("cache1"));
}

#[test]
fn test_conditional_invalidation() {
    let mut registry = InvalidationRegistry::new();
    registry.register_invalidation_callback("cache1");

    let check = |key: &str| {
        key.strip_prefix("key").and_then(|s| s.parse::<u64>().ok()).map(|n| n > 100).unwrap_or(false)
    };
    assert!(registry.invalidate_with("cache1"));
    let removed = check_keys(&["key1", "key2", "key100", "key500", "key1001"], &check);

    assert_eq!(removed.len(), 2);
    assert!(removed.contains(&"key500".to_string()));
    assert!(removed.contains(&"key1001".to_string()));
    assert!(!removed.contains(&"key1".to_string()));
    assert!(!removed.contains(&"key2".to_string()));
    assert!(!removed.contains(&"key100".to_string()));
}

#[test]
fn test_conditional_invalidation_nonexistent_cache() {
    let registry = InvalidationRegistry::new();
    let result = registry.invalidate_with("nonexistent");
    assert!(!result);
}

#[test]
fn test_invalidate_all_with_check_function() {
    let mut registry = InvalidationRegistry::new();
    registry.register_invalidation_callback("cache1");
    registry.register_invalidation_callback("cache2");

    let check = |_cache_name: &str, key: &str| key.parse::<u64>().unwrap_or(0) >= 3;
    let names = registry.invalidate_all_with();
    let count = names.len();
    assert_eq!(count, 2);

    let mut cache1_removed = Vec::new();
    let mut cache2_removed = Vec::new();
    for name in &names {
        if name == "cache1" {
            cache1_removed = check_keys(&["1", "2", "3", "4", "5"], &|k| check(name, k));
        } else if name == "cache2" {
            cache2_removed = check_keys(&["10", "20", "30"], &|k| check(name, k));
        }
    }

    assert_eq!(cache1_removed.len(), 3);
    assert!(cache1_removed.contains(&"3".to_string()));
    assert!(cache1_removed.contains(&"4".to_string()));
    assert!(cache1_removed.contains(&"5".to_string()));

    assert_eq!(cache2_removed.len(), 3);
    assert!(cache2_removed.contains(&"10".to_string()));
    assert!(cache2_removed.contains(&"20".to_string()));
    assert!(cache2_removed.contains(&"30".to_string()));
}

#[test]
fn test_complex_conditional_checks() {
    let mut registry = InvalidationRegistry::new();
    registry.register_invalidation_callback("cache1");

    let check = |key: &str| {
        key.strip_prefix("user_").and_then(|s| s.parse::<u64>().ok()).map(|n| n % 20 == 0).unwrap_or(false)
    };
    assert!(registry.invalidate_with("cache1"));
    let removed = check_keys(&["user_10", "user_20", "user_30", "user_40", "user_50"], &check);

    assert_eq!(removed.len(), 2);
    assert!(removed.contains(&"user_20".to_string()));
    assert!(removed.contains(&"user_40".to_string()));
    assert!(!removed.contains(&"user_10".to_string()));
    assert!(!removed.contains(&"user_30".to_string()));
}

#[test]
fn only_caches_with_a_clear_action_are_invalidated() {
    let mut registry = InvalidationRegistry::new();
    registry.register("a", InvalidationMetadata::new(vec!["t".to_string()], vec!["e".to_string()], vec![]));
    registry.register("b", InvalidationMetadata::new(vec!["t".to_string()], vec![], vec!["d".to_string()]));
    registry.register_callback("b");
    assert_eq!(registry.invalidate_by_tag("t"), vec!["b".to_string()]);
    assert!(registry.invalidate_by_event("e").is_empty());
    assert_eq!(registry.invalidate_by_dependency("d"), vec!["b".to_string()]);
    assert!(registry.invalidate_by_tag("missing").is_empty());
}

#[test]
fn registering_twice_files_a_cache_once() {
    let mut registry = InvalidationRegistry::new();
    let meta = InvalidationMetadata::new(vec!["t".to_string(), "t".to_string()], vec!["e".to_string()], vec![]);
    registry.register("c", meta.clone());
    registry.register("c", meta);
    assert_eq!(registry.get_caches_by_tag("t"), vec!["c".to_string()]);
    assert_eq!(registry.get_caches_by_event("e"), vec!["c".to_string()]);
    assert!(registry.get_dependent_caches("t").is_empty());
}

#[test]
fn metadata_emptiness() {
    assert!(InvalidationMetadata::new(vec![], vec![], vec![]).is_empty());
    assert!(!InvalidationMetadata::new(vec![], vec![], vec!["d".to_string()]).is_empty());
}

use cachelito_core::cache_entry::CacheEntry;
use cachelito_core::str_map::StrMap;
use cachelito_core::utils::{
    find_arc_eviction_key, find_min_frequency_key, move_key_to_end, remove_key_from_cache_local, CacheMap,
};
use std::collections::VecDeque;
use std::time::Instant;

fn create_cache_entry<R>(value: R, frequency: u64) -> CacheEntry<R> {
    CacheEntry { value, inserted_at: Instant::now(), frequency }
}

fn deque(keys: Vec<String>) -> VecDeque<String> {
    VecDeque::from(keys)
}

#[test]
fn test_move_key_to_end_existing_key() {
    let mut order = VecDeque::from(vec!["key1".to_string(), "key2".to_string(), "key3".to_string()]);
    move_key_to_end(&mut order, "key2");

    assert_eq!(order.len(), 3);
    assert_eq!(order[0], "key1");
    assert_eq!(order[1], "key3");
    assert_eq!(order[2], "key2");
}

#[test]
fn test_move_key_to_end_first_key() {
    let mut order = VecDeque::from(vec!["key1".to_string(), "key2".to_string(), "key3".to_string()]);
    move_key_to_end(&mut order, "key1");

    assert_eq!(order.len(), 3);
    assert_eq!(order[0], "key2");
    assert_eq!(order[1], "key3");
    assert_eq!(order[2], "key1");
}

#[test]
fn test_move_key_to_end_last_key() {
    let mut order = VecDeque::from(vec!["key1".to_string(), "key2".to_string(), "key3".to_string()]);
    move_key_to_end(&mut order, "key3");

    assert_eq!(order.len(), 3);
    assert_eq!(order[0], "key1");
    assert_eq!(order[1], "key2");
    assert_eq!(order[2], "key3");
}

#[test]
fn test_move_key_to_end_nonexistent_key() {
    let mut order = VecDeque::from(vec!["key1".to_string(), "key2".to_string()]);
    move_key_to_end(&mut order, "key3");

    assert_eq!(order.len(), 2);
    assert_eq!(order[0], "key1");
    assert_eq!(order[1], "key2");
}

#[test]
fn test_move_key_to_end_empty_queue() {
    let mut order = VecDeque::new();
    move_key_to_end(&mut order, "key1");

    assert_eq!(order.len(), 0);
}

#[test]
fn test_move_key_to_end_single_key() {
    let mut order = VecDeque::from(vec!["key1".to_string()]);
    move_key_to_end(&mut order, "key1");

    assert_eq!(order.len(), 1);
    assert_eq!(order[0], "key1");
}

#[test]
fn move_key_to_end_moves_only_first_occurrence() {
    let mut order = VecDeque::from(vec!["a".to_string(), "b".to_string(), "a".to_string()]);
    move_key_to_end(&mut order, "a");
    assert_eq!(order, VecDeque::from(vec!["b".to_string(), "a".to_string(), "a".to_string()]));
}

#[test]
fn test_find_min_frequency_key_basic() {
    let mut map: CacheMap<i32> = StrMap::new();
    map.insert("key1".to_string(), create_cache_entry(100, 5));
    map.insert("key2".to_string(), create_cache_entry(200, 2));
    map.insert("key3".to_string(), create_cache_entry(300, 8));

    let order = VecDeque::from(vec!["key1".to_string(), "key2".to_string(), "key3".to_string()]);

    let min_key = find_min_frequency_key(&map, &order);
    assert_eq!(min_key, Some("key2".to_string()));
}

#[test]
fn test_find_min_frequency_key_empty_queue() {
    let map: CacheMap<i32> = StrMap::new();
    let order = VecDeque::new();

    let min_key = find_min_frequency_key(&map, &order);
    assert_eq!(min_key, None);
}

#[test]
fn test_find_min_frequency_key_empty_map() {
    let map: CacheMap<i32> = StrMap::new();
    let order = VecDeque::from(vec!["key1".to_string(), "key2".to_string()]);

    let min_key = find_min_frequency_key(&map, &order);
    assert_eq!(min_key, None);
}

#[test]
fn test_find_min_frequency_key_single_entry() {
    let mut map: CacheMap<i32> = StrMap::new();
    map.insert("key1".to_string(), create_cache_entry(100, 10));

    let order = VecDeque::from(vec!["key1".to_string()]);

    let min_key = find_min_frequency_key(&map, &order);
    assert_eq!(min_key, Some("key1".to_string()));
}

#[test]
fn test_find_min_frequency_key_tie_returns_first() {
    let mut map: CacheMap<i32> = StrMap::new();
    map.insert("key1".to_string(), create_cache_entry(100, 5));
    map.insert("key2".to_string(), create_cache_entry(200, 3));
    map.insert("key3".to_string(), create_cache_entry(300, 3));

    let order = VecDeque::from(vec!["key1".to_string(), "key2".to_string(), "key3".to_string()]);

    let min_key = find_min_frequency_key(&map, &order);
    assert_eq!(min_key, Some("key2".to_string()));
}

#[test]
fn test_find_min_frequency_key_orphaned_keys() {
    let mut map: CacheMap<i32> = StrMap::new();
    map.insert("key2".to_string(), create_cache_entry(200, 5));
    map.insert("key3".to_string(), create_cache_entry(300, 2));

    let order = VecDeque::from(vec!["key1".to_string(), "key2".to_string(), "key3".to_string()]);

    let min_key = find_min_frequency_key(&map, &order);
    assert_eq!(min_key, Some("key3".to_string()));
}

#[test]
fn test_find_min_frequency_key_all_orphaned() {
    let mut map: CacheMap<i32> = StrMap::new();
    map.insert("key4".to_string(), create_cache_entry(400, 1));

    let order = VecDeque::from(vec!["key1".to_string(), "key2".to_string(), "key3".to_string()]);

    let min_key = find_min_frequency_key(&map, &order);
    assert_eq!(min_key, None);
}

#[test]
fn test_find_min_frequency_key_zero_frequency() {
    let mut map: CacheMap<i32> = StrMap::new();
    map.insert("key1".to_string(), create_cache_entry(100, 10));
    map.insert("key2".to_string(), create_cache_entry(200, 0));
    map.insert("key3".to_string(), create_cache_entry(300, 5));

    let order = VecDeque::from(vec!["key1".to_string(), "key2".to_string(), "key3".to_string()]);

    let min_key = find_min_frequency_key(&map, &order);
    assert_eq!(min_key, Some("key2".to_string()));
}

#[test]
fn test_find_min_frequency_key_large_frequencies() {
    let mut map: CacheMap<i32> = StrMap::new();
    map.insert("key1".to_string(), create_cache_entry(100, u64::MAX - 1));
    map.insert("key2".to_string(), create_cache_entry(200, u64::MAX));
    map.insert("key3".to_string(), create_cache_entry(300, 1000));

    let order = VecDeque::from(vec!["key1".to_string(), "key2".to_string(), "key3".to_string()]);

    let min_key = find_min_frequency_key(&map, &order);
    assert_eq!(min_key, Some("key3".to_string()));
}

#[test]
fn test_find_min_frequency_key_different_types() {
    let mut map: CacheMap<String> = StrMap::new();
    map.insert("key1".to_string(), create_cache_entry("value1".to_string(), 5));
    map.insert("key2".to_string(), create_cache_entry("value2".to_string(), 2));

    let order = VecDeque::from(vec!["key1".to_string(), "key2".to_string()]);

    let min_key = find_min_frequency_key(&map, &order);
    assert_eq!(min_key, Some("key2".to_string()));
}

#[test]
fn test_remove_key_from_cache_local_existing_key() {
    let mut map: CacheMap<i32> = StrMap::new();
    let mut order = VecDeque::new();

    map.insert("key1".to_string(), create_cache_entry(100, 1));
    order.push_back("key1".to_string());

    let removed = remove_key_from_cache_local(&mut map, &mut order, "key1");

    assert!(removed);
    assert!(!map.contains_key("key1"));
    assert!(order.is_empty());
}

#[test]
fn test_remove_key_from_cache_local_nonexistent_key() {
    let mut map: CacheMap<i32> = StrMap::new();
    let mut order = VecDeque::new();

    map.insert("key1".to_string(), create_cache_entry(100, 1));
    order.push_back("key1".to_string());

    let removed = remove_key_from_cache_local(&mut map, &mut order, "key2");

    assert!(!removed);
    assert_eq!(map.len(), 1);
    assert_eq!(order.len(), 1);
}

#[test]
fn test_remove_key_from_cache_local_multiple_entries() {
    let mut map: CacheMap<i32> = StrMap::new();
    let mut order = VecDeque::new();

    map.insert("key1".to_string(), create_cache_entry(100, 1));
    map.insert("key2".to_string(), create_cache_entry(200, 2));
    map.insert("key3".to_string(), create_cache_entry(300, 3));
    order.push_back("key1".to_string());
    order.push_back("key2".to_string());
    order.push_back("key3".to_string());

    let removed = remove_key_from_cache_local(&mut map, &mut order, "key2");

    assert!(removed);
    assert!(!map.contains_key("key2"));
    assert_eq!(map.len(), 2);
    assert_eq!(order.len(), 2);
    assert_eq!(order[0], "key1");
    assert_eq!(order[1], "key3");
}

#[test]
fn test_remove_key_from_cache_local_only_in_map() {
    let mut map: CacheMap<i32> = StrMap::new();
    let mut order = VecDeque::new();

    map.insert("key1".to_string(), create_cache_entry(100, 1));

    let removed = remove_key_from_cache_local(&mut map, &mut order, "key1");

    assert!(removed);
    assert!(!map.contains_key("key1"));
    assert!(order.is_empty());
}

#[test]
fn test_remove_key_from_cache_local_only_in_order() {
    let mut map: CacheMap<i32> = StrMap::new();
    let mut order = VecDeque::new();

    order.push_back("key1".to_string());

    let removed = remove_key_from_cache_local(&mut map, &mut order, "key1");

    assert!(removed);
    assert!(map.is_empty());
    assert!(order.is_empty());
}

#[test]
fn test_remove_key_from_cache_local_empty_structures() {
    let mut map: CacheMap<i32> = StrMap::new();
    let mut order: VecDeque<String> = VecDeque::new();

    let removed = remove_key_from_cache_local(&mut map, &mut order, "key1");

    assert!(!removed);
    assert!(map.is_empty());
    assert!(order.is_empty());
}

#[test]
fn test_remove_key_from_cache_local_first_in_order() {
    let mut map: CacheMap<i32> = StrMap::new();
    let mut order = VecDeque::new();

    map.insert("key1".to_string(), create_cache_entry(100, 1));
    map.insert("key2".to_string(), create_cache_entry(200, 2));
    order.push_back("key1".to_string());
    order.push_back("key2".to_string());

    let removed = remove_key_from_cache_local(&mut map, &mut order, "key1");

    assert!(removed);
    assert_eq!(map.len(), 1);
    assert_eq!(order.len(), 1);
    assert_eq!(order[0], "key2");
}

#[test]
fn test_remove_key_from_cache_local_last_in_order() {
    let mut map: CacheMap<i32> = StrMap::new();
    let mut order = VecDeque::new();

    map.insert("key1".to_string(), create_cache_entry(100, 1));
    map.insert("key2".to_string(), create_cache_entry(200, 2));
    order.push_back("key1".to_string());
    order.push_back("key2".to_string());

    let removed = remove_key_from_cache_local(&mut map, &mut order, "key2");

    assert!(removed);
    assert_eq!(map.len(), 1);
    assert_eq!(order.len(), 1);
    assert_eq!(order[0], "key1");
}

#[test]
fn test_remove_key_from_cache_local_single_entry() {
    let mut map: CacheMap<i32> = StrMap::new();
    let mut order = VecDeque::new();

    map.insert("key1".to_string(), create_cache_entry(100, 1));
    order.push_back("key1".to_string());

    let removed = remove_key_from_cache_local(&mut map, &mut order, "key1");

    assert!(removed);
    assert!(map.is_empty());
    assert!(order.is_empty());
}

#[test]
fn test_remove_key_from_cache_local_different_value_types() {
    let mut map: CacheMap<String> = StrMap::new();
    let mut order = VecDeque::new();

    map.insert("key1".to_string(), create_cache_entry("string_value".to_string(), 1));
    order.push_back("key1".to_string());

    let removed = remove_key_from_cache_local(&mut map, &mut order, "key1");

    assert!(removed);
    assert!(map.is_empty());
    assert!(order.is_empty());
}

#[test]
fn test_find_arc_eviction_key_empty_order() {
    let map: CacheMap<i32> = StrMap::new();
    let order: Vec<String> = vec![];

    let result = find_arc_eviction_key(&map, &deque(order));

    assert_eq!(result, None);
}

#[test]
fn test_find_arc_eviction_key_single_entry() {
    let mut map: CacheMap<i32> = StrMap::new();
    map.insert("key1".to_string(), create_cache_entry(100, 5));

    let order = vec!["key1".to_string()];

    let result = find_arc_eviction_key(&map, &deque(order));

    assert_eq!(result, Some("key1".to_string()));
}

#[test]
fn test_find_arc_eviction_key_low_frequency_wins() {
    let mut map: CacheMap<i32> = StrMap::new();
    map.insert("recent_freq".to_string(), create_cache_entry(200, 10));
    map.insert("old_rare".to_string(), create_cache_entry(100, 1));

    let order = vec!["recent_freq".to_string(), "old_rare".to_string()];

    let result = find_arc_eviction_key(&map, &deque(order));

    assert_eq!(result, Some("old_rare".to_string()));
}

#[test]
fn test_find_arc_eviction_key_recency_matters() {
    let mut map: CacheMap<i32> = StrMap::new();
    map.insert("recent".to_string(), create_cache_entry(200, 5));
    map.insert("old".to_string(), create_cache_entry(100, 5));

    let order = vec!["recent".to_string(), "old".to_string()];

    let result = find_arc_eviction_key(&map, &deque(order));

    assert_eq!(result, Some("old".to_string()));
}

#[test]
fn test_find_arc_eviction_key_multiple_entries() {
    let mut map: CacheMap<i32> = StrMap::new();
    map.insert("key1".to_string(), create_cache_entry(100, 10));
    map.insert("key2".to_string(), create_cache_entry(200, 5));
    map.insert("key3".to_string(), create_cache_entry(300, 3));

    let order = vec!["key1".to_string(), "key2".to_string(), "key3".to_string()];

    let result = find_arc_eviction_key(&map, &deque(order));

    assert_eq!(result, Some("key3".to_string()));
}

#[test]
fn test_find_arc_eviction_key_missing_entries() {
    let mut map: CacheMap<i32> = StrMap::new();
    map.insert("key1".to_string(), create_cache_entry(100, 5));
    map.insert("key3".to_string(), create_cache_entry(300, 10));

    let order = vec!["key3".to_string(), "key2".to_string(), "key1".to_string()];

    let result = find_arc_eviction_key(&map, &deque(order));

    assert_eq!(result, Some("key1".to_string()));
}

#[test]
fn test_find_arc_eviction_key_all_missing() {
    let map: CacheMap<i32> = StrMap::new();
    let order = vec!["key1".to_string(), "key2".to_string()];

    let result = find_arc_eviction_key(&map, &deque(order));

    assert_eq!(result, None);
}

#[test]
fn test_find_arc_eviction_key_zero_frequency() {
    let mut map: CacheMap<i32> = StrMap::new();
    map.insert("high_freq".to_string(), create_cache_entry(200, 100));
    map.insert("zero_freq".to_string(), create_cache_entry(100, 0));

    let order = vec!["high_freq".to_string(), "zero_freq".to_string()];

    let result = find_arc_eviction_key(&map, &deque(order));

    assert_eq!(result, Some("zero_freq".to_string()));
}

#[test]
fn test_find_arc_eviction_key_complex_scenario() {
    let mut map: CacheMap<i32> = StrMap::new();
    map.insert("user:1".to_string(), create_cache_entry(1, 50));
    map.insert("user:2".to_string(), create_cache_entry(2, 2));
    map.insert("user:3".to_string(), create_cache_entry(3, 100));

    let order = vec!["user:1".to_string(), "user:2".to_string(), "user:3".to_string()];

    let result = find_arc_eviction_key(&map, &deque(order));

    assert_eq!(result, Some("user:2".to_string()));
}

#[test]
fn test_find_arc_eviction_key_with_integer_keys() {
    let mut map: CacheMap<&str> = StrMap::new();
    map.insert(1.to_string(), create_cache_entry("a", 10));
    map.insert(2.to_string(), create_cache_entry("b", 5));
    map.insert(3.to_string(), create_cache_entry("c", 20));

    let order = vec![1.to_string(), 2.to_string(), 3.to_string()];

    let result = find_arc_eviction_key(&map, &deque(order));

    assert_eq!(result, Some(2.to_string()));
}

#[test]
fn find_arc_eviction_key_tie_goes_to_front() {
    let mut map: CacheMap<i32> = StrMap::new();
    map.insert("a".to_string(), create_cache_entry(1, 1));
    map.insert("b".to_string(), create_cache_entry(2, 2));
    // scores: a = 1 * 2 = 2, b = 2 * 1 = 2
    let order = vec!["a".to_string(), "b".to_string()];
    assert_eq!(find_arc_eviction_key(&map, &deque(order)), Some("a".to_string()));
}

#[test]
fn find_min_frequency_key_picks_saturated_key() {
    let mut map: CacheMap<i32> = StrMap::new();
    map.insert("a".to_string(), create_cache_entry(1, u64::MAX));
    let order = VecDeque::from(vec!["a".to_string()]);
    assert_eq!(find_min_frequency_key(&map, &order), Some("a".to_string()));
}

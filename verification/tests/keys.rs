use cachelito_core::keys::{CacheScope, CacheableKey, DefaultCacheableKey};

#[derive(Debug)]
struct Point {
    x: i32,
    y: i32,
}

impl DefaultCacheableKey for Point {}

#[test]
fn default_keys_are_debug_renderings() {
    assert_eq!(42u32.to_cache_key(), "42");
    assert_eq!((-7i64).to_cache_key(), "-7");
    assert_eq!("a".to_cache_key(), "\"a\"");
    assert_eq!(String::from("b").to_cache_key(), "\"b\"");
    assert_eq!((1u8, true).to_cache_key(), "(1, true)");
    assert_eq!(Some('c').to_cache_key(), "Some('c')");
    assert_eq!(vec![1i32, 2].to_cache_key(), "[1, 2]");
    assert_eq!(Point { x: 1, y: 2 }.to_cache_key(), "Point { x: 1, y: 2 }");
}

#[test]
fn scopes_differ() {
    assert_ne!(CacheScope::Global, CacheScope::ThreadLocal);
}

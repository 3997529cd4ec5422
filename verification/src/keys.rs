use std::fmt::Debug;
use vstd::prelude::*;

verus! {

/// `format!("{:?}", value)`: the value's `Debug` rendering. Nothing is
/// claimed of the text: it depends on the type's `Debug` implementation.
#[verifier::external_body]
fn debug_string<T: Debug + ?Sized>(value: &T) -> String {
    format!("{:?}", value)
}

/// Turns a value into the string key under which its result is cached.
pub trait CacheableKey {
    /// The cache key of the value.
    fn to_cache_key(&self) -> String;
}

/// Opts a type into the default cache key: its `Debug` rendering.
pub trait DefaultCacheableKey: Debug {

}

impl<T: DefaultCacheableKey + ?Sized> CacheableKey for T {
    /// The value's `Debug` rendering.
    fn to_cache_key(&self) -> String {
        debug_string(self)
    }
}

impl DefaultCacheableKey for u8 {

}

impl DefaultCacheableKey for u16 {

}

impl DefaultCacheableKey for u32 {

}

impl DefaultCacheableKey for u64 {

}

impl DefaultCacheableKey for u128 {

}

impl DefaultCacheableKey for usize {

}

impl DefaultCacheableKey for i8 {

}

impl DefaultCacheableKey for i16 {

}

impl DefaultCacheableKey for i32 {

}

impl DefaultCacheableKey for i64 {

}

impl DefaultCacheableKey for i128 {

}

impl DefaultCacheableKey for isize {

}

impl DefaultCacheableKey for bool {

}

impl DefaultCacheableKey for char {

}

impl DefaultCacheableKey for String {

}

impl<'a> DefaultCacheableKey for &'a str {

}

impl<T1: DefaultCacheableKey> DefaultCacheableKey for (T1,) {

}

impl<T1: DefaultCacheableKey, T2: DefaultCacheableKey> DefaultCacheableKey for (T1, T2) {

}

impl<
    T1: DefaultCacheableKey,
    T2: DefaultCacheableKey,
    T3: DefaultCacheableKey,
> DefaultCacheableKey for (T1, T2, T3) {

}

impl<
    T1: DefaultCacheableKey,
    T2: DefaultCacheableKey,
    T3: DefaultCacheableKey,
    T4: DefaultCacheableKey,
> DefaultCacheableKey for (T1, T2, T3, T4) {

}

impl<
    T1: DefaultCacheableKey,
    T2: DefaultCacheableKey,
    T3: DefaultCacheableKey,
    T4: DefaultCacheableKey,
    T5: DefaultCacheableKey,
> DefaultCacheableKey for (T1, T2, T3, T4, T5) {

}

impl<T: DefaultCacheableKey> DefaultCacheableKey for Option<T> {

}

impl<T: DefaultCacheableKey, E: DefaultCacheableKey> DefaultCacheableKey for Result<T, E> {

}

impl<T: DefaultCacheableKey> DefaultCacheableKey for Vec<T> {

}

impl<'a, T: DefaultCacheableKey> DefaultCacheableKey for &'a [T] {

}

/// Where a cache lives: one per thread, or one shared by all threads.
#[derive(Clone, Copy, Debug, PartialEq, Eq, Structural)]
pub enum CacheScope {
    ThreadLocal,
    Global,
}

} // verus!

//! Verified core of the cachelito caching library: cache entries, eviction
//! policies, the ordered entry store with its eviction rules, the Count-Min
//! sketch, statistics and the invalidation registry.

pub mod attributes;
pub mod cache_entry;
pub mod count_min_sketch;
pub mod decimal;
pub mod invalidation;
pub mod keys;
pub mod stats;
pub mod stats_registry;
pub mod str_map;
mod text;
pub mod eviction_policy;
pub mod expansion;
pub mod memory_estimator;
pub mod utils;
pub mod cache_store;

pub use cache_entry::CacheEntry;
pub use cache_store::{CacheConfig, CacheStore};
pub use count_min_sketch::CountMinSketch;
pub use eviction_policy::EvictionPolicy;
pub use invalidation::{InvalidationMetadata, InvalidationRegistry, InvalidationStrategy};
pub use keys::{CacheScope, CacheableKey, DefaultCacheableKey};
pub use memory_estimator::MemoryEstimator;
pub use stats::CacheStats;

use vstd::prelude::*;

use crate::stats::CacheStats;
use crate::str_map::StrMap;

verus! {

/// Statistics of caches, by cache name.
pub struct StatsRegistry {
    entries: StrMap<CacheStats>,
}

impl View for StatsRegistry {
    type V = Map<Seq<char>, CacheStats>;

    closed spec fn view(&self) -> Map<Seq<char>, CacheStats> {
        self.entries@
    }
}

impl StatsRegistry {
    /// A registry with no cache.
    pub fn new() -> (r: Self)
        ensures
            r@ == Map::<Seq<char>, CacheStats>::empty(),
    {
        StatsRegistry { entries: StrMap::new() }
    }
}

/// Records `stats` under `name`, replacing what was there.
pub fn register(registry: &mut StatsRegistry, name: &str, stats: CacheStats)
    ensures
        final(registry)@ == old(registry)@.insert(name@, stats),
{
    registry.entries.insert(name.to_string(), stats);
}

/// A copy of the statistics recorded under `name`, if any.
pub fn get(registry: &StatsRegistry, name: &str) -> (r: Option<CacheStats>)
    ensures
        match r {
            Some(s) => registry@.contains_key(name@) && s == registry@[name@],
            None => !registry@.contains_key(name@),
        },
{
    match registry.entries.get(name) {
        Some(s) => Some(*s),
        None => None,
    }
}

/// The statistics recorded under `name`, if any, without copying.
pub fn get_ref<'a>(registry: &'a StatsRegistry, name: &str) -> (r: Option<&'a CacheStats>)
    ensures
        match r {
            Some(s) => registry@.contains_key(name@) && *s == registry@[name@],
            None => !registry@.contains_key(name@),
        },
{
    registry.entries.get(name)
}

/// The names of all registered caches, each once.
pub fn list(registry: &StatsRegistry) -> (r: Vec<String>)
    ensures
        r@.len() == registry@.len(),
        forall|i: int| 0 <= i < r@.len() ==> registry@.contains_key(#[trigger] r@[i]@),
        forall|k: Seq<char>| #[trigger] registry@.contains_key(k) ==> exists|i: int|
            0 <= i < r@.len() && r@[i]@ == k,
        forall|i: int, j: int|
            0 <= i < r@.len() && 0 <= j < r@.len() && i != j ==> #[trigger] r@[i]@ != #[trigger] r@[j]@,
{
    registry.entries.keys()
}

/// Forgets every registered cache.
pub fn clear(registry: &mut StatsRegistry)
    ensures
        final(registry)@ == Map::<Seq<char>, CacheStats>::empty(),
{
    registry.entries.clear();
}

/// Sets the counts of the cache named `name` back to zero; returns whether
/// such a cache is registered.
pub fn reset(registry: &mut StatsRegistry, name: &str) -> (r: bool)
    ensures
        r == old(registry)@.contains_key(name@),
        r ==> final(registry)@.dom() == old(registry)@.dom() && final(registry)@[name@].hit_count()
            == 0 && final(registry)@[name@].miss_count() == 0 && forall|k: Seq<char>|
            k != name@ && #[trigger] old(registry)@.contains_key(k) ==> final(registry)@[k] == old(
                registry,
            )@[k],
        !r ==> final(registry)@ == old(registry)@,
{
    match registry.entries.remove(name) {
        Some(mut s) => {
            s.reset();
            registry.entries.insert(name.to_string(), s);
            assert(registry@.dom() =~= old(registry)@.dom());
            true
        },
        None => false,
    }
}

} // verus!

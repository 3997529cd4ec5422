use std::collections::VecDeque;
use vstd::prelude::*;
use vstd::string::StringExecFns;

use crate::cache_entry::{spec_ttl_exceeded, ttl_exceeded, CacheEntry};
use crate::eviction_policy::EvictionPolicy;
use crate::memory_estimator::MemoryEstimator;
use crate::stats::{CacheStats, wrapping_inc};
use crate::str_map::StrMap;
use crate::utils::{
    find_arc_eviction_key, find_min_frequency_key, first_index, keys_view, lemma_first_index,
    move_key_to_end, moved_to_end, remove_key_from_cache_local, remove_position,
    law_min_frequency_key_is_least, law_arc_key_is_least, law_arc_victim_minimizes_product, law_moved_to_end, arc_score, without_first, arc_eviction_key,
    arc_scan, min_frequency_key, CacheMap,
};

verus! {

broadcast use vstd::std_specs::vecdeque::group_vec_dequeue_axioms;

/// The map of entries and the order queue agree: every key occurs once in
/// the queue, and the queue holds exactly the keys of the map.
pub open spec fn consistent<R>(m: Map<Seq<char>, CacheEntry<R>>, ks: Seq<Seq<char>>) -> bool {
    &&& ks.no_duplicates()
    &&& forall|k: Seq<char>| m.contains_key(k) <==> ks.contains(k)
}

/// The key the policy evicts next, if any: the front of the queue for FIFO
/// and LRU, the least accessed key for LFU, the least ARC score for ARC.
pub open spec fn victim<R>(m: Map<Seq<char>, CacheEntry<R>>, ks: Seq<Seq<char>>, policy: EvictionPolicy) -> Option<Seq<char>> {
    match policy {
        EvictionPolicy::LFU => min_frequency_key(m, ks),
        EvictionPolicy::ARC => arc_eviction_key(m, ks),
        _ => if ks.len() > 0 {
            Some(ks[0])
        } else {
            None
        },
    }
}

/// One more access counted on an entry, saturating at `u64::MAX`.
pub open spec fn bumped<R>(e: CacheEntry<R>) -> CacheEntry<R> {
    CacheEntry {
        value: e.value,
        inserted_at: e.inserted_at,
        frequency: if e.frequency == u64::MAX {
            u64::MAX
        } else {
            (e.frequency + 1) as u64
        },
    }
}

/// Room for one more entry under the entry-count limit: when the queue has
/// reached the limit, the policy's victim (if any) is dropped.
pub open spec fn after_limit<R>(
    m: Map<Seq<char>, CacheEntry<R>>,
    ks: Seq<Seq<char>>,
    limit: Option<usize>,
    policy: EvictionPolicy,
) -> (Map<Seq<char>, CacheEntry<R>>, Seq<Seq<char>>) {
    match limit {
        Some(l) => if ks.len() >= l {
            match victim(m, ks, policy) {
                Some(v) => (m.remove(v), without_first(ks, v)),
                None => (m, ks),
            }
        } else {
            (m, ks)
        },
        None => (m, ks),
    }
}

/// The size recorded for `k`, zero when none is recorded.
pub open spec fn size_of_key(sizes: Map<Seq<char>, usize>, k: Seq<char>) -> nat {
    if sizes.contains_key(k) {
        sizes[k] as nat
    } else {
        0
    }
}

/// The sum of the sizes of the keys of `ks`.
pub open spec fn total_size(ks: Seq<Seq<char>>, sizes: Map<Seq<char>, usize>) -> nat
    decreases ks.len(),
{
    if ks.len() == 0 {
        0
    } else {
        total_size(ks.drop_last(), sizes) + size_of_key(sizes, ks.last())
    }
}

/// The state after evicting, victim by victim, until the sizes of the keys
/// left add up to at most `max_mem` or the policy has no victim left.
pub open spec fn after_memory<R>(
    m: Map<Seq<char>, CacheEntry<R>>,
    ks: Seq<Seq<char>>,
    sizes: Map<Seq<char>, usize>,
    policy: EvictionPolicy,
    max_mem: usize,
) -> (Map<Seq<char>, CacheEntry<R>>, Seq<Seq<char>>)
    decreases ks.len(),
{
    if total_size(ks, sizes) <= max_mem {
        (m, ks)
    } else {
        match victim(m, ks, policy) {
            Some(v) => if ks.contains(v) {
                proof {
                    lemma_first_index(ks, v);
                }
                after_memory(m.remove(v), without_first(ks, v), sizes, policy, max_mem)
            } else {
                (m, ks)
            },
            None => (m, ks),
        }
    }
}

/// The state right after `e` is stored under `k`: the entry replaces any
/// previous one and `k` moves to the back of the queue.
pub open spec fn stored<R>(
    m: Map<Seq<char>, CacheEntry<R>>,
    ks: Seq<Seq<char>>,
    k: Seq<char>,
    e: CacheEntry<R>,
) -> (Map<Seq<char>, CacheEntry<R>>, Seq<Seq<char>>) {
    (m.insert(k, e), without_first(ks, k).push(k))
}

/// `e` stored under `k`, which is put at the back of the queue.
pub open spec fn placed<R>(
    m: Map<Seq<char>, CacheEntry<R>>,
    ks: Seq<Seq<char>>,
    k: Seq<char>,
    e: CacheEntry<R>,
) -> (Map<Seq<char>, CacheEntry<R>>, Seq<Seq<char>>) {
    (m.insert(k, e), ks.push(k))
}

/// The state after an insertion under the entry-count limit: any previous
/// entry under `k` is taken out, room is made among the other entries, and
/// then `e` is stored under `k` as the most recent entry.
pub open spec fn after_insert<R>(
    m: Map<Seq<char>, CacheEntry<R>>,
    ks: Seq<Seq<char>>,
    config: CacheConfig,
    k: Seq<char>,
    e: CacheEntry<R>,
) -> (Map<Seq<char>, CacheEntry<R>>, Seq<Seq<char>>) {
    let t = after_limit(m.remove(k), without_first(ks, k), config.limit, config.policy);
    placed(t.0, t.1, k, e)
}

/// The state after an insertion under both limits, given the size of every
/// entry. An entry larger than the memory limit by itself is not stored at
/// all: the cache stays as it was. Otherwise any previous entry under `k`
/// is taken out, other entries are evicted until the new one fits in the
/// memory left, room is made under the entry-count limit, and then the new
/// entry is stored as the most recent one.
pub open spec fn after_insert_sized<R>(
    m: Map<Seq<char>, CacheEntry<R>>,
    ks: Seq<Seq<char>>,
    config: CacheConfig,
    k: Seq<char>,
    e: CacheEntry<R>,
    sizes: Map<Seq<char>, usize>,
) -> (Map<Seq<char>, CacheEntry<R>>, Seq<Seq<char>>) {
    match config.max_memory {
        None => after_insert(m, ks, config, k, e),
        Some(max_mem) => if size_of_key(sizes, k) > max_mem {
            (m, ks)
        } else {
            let t = after_memory(
                m.remove(k),
                without_first(ks, k),
                sizes,
                config.policy,
                (max_mem - size_of_key(sizes, k)) as usize,
            );
            let u = after_limit(t.0, t.1, config.limit, config.policy);
            placed(u.0, u.1, k, e)
        },
    }
}

/// The state after a read of `k` whose entry is `age_secs` old: a missing key
/// changes nothing, an expired entry is dropped, and a hit updates recency
/// (LRU, ARC) and access count (LFU, ARC).
pub open spec fn after_get<R>(
    m: Map<Seq<char>, CacheEntry<R>>,
    ks: Seq<Seq<char>>,
    config: CacheConfig,
    k: Seq<char>,
    age_secs: u64,
) -> (Map<Seq<char>, CacheEntry<R>>, Seq<Seq<char>>) {
    if !m.contains_key(k) {
        (m, ks)
    } else if spec_ttl_exceeded(age_secs, config.ttl) {
        (m.remove(k), without_first(ks, k))
    } else {
        match config.policy {
            EvictionPolicy::FIFO => (m, ks),
            EvictionPolicy::LRU => (m, moved_to_end(ks, k)),
            EvictionPolicy::LFU => (m.insert(k, bumped(m[k])), ks),
            EvictionPolicy::ARC => (m.insert(k, bumped(m[k])), moved_to_end(ks, k)),
        }
    }
}

/// What a read of `k` returns from entries `m` when the entry is `age_secs`
/// old: nothing for a missing or expired entry, else a clone of the value.
pub open spec fn read_result<R: Clone>(
    m: Map<Seq<char>, CacheEntry<R>>,
    ttl: Option<u64>,
    k: Seq<char>,
    age_secs: u64,
    r: Option<R>,
) -> bool {
    match r {
        Some(v) => m.contains_key(k) && !spec_ttl_exceeded(age_secs, ttl) && cloned(m[k].value, v),
        None => !m.contains_key(k) || spec_ttl_exceeded(age_secs, ttl),
    }
}

/// The statistics after one read: a hit counts one more hit, anything else
/// one more miss, each count wrapping around at `u64::MAX`.
pub open spec fn recorded(before: CacheStats, after: CacheStats, hit: bool) -> bool {
    if hit {
        after.hit_count() == wrapping_inc(before.hit_count()) && after.miss_count()
            == before.miss_count()
    } else {
        after.miss_count() == wrapping_inc(before.miss_count()) && after.hit_count()
            == before.hit_count()
    }
}

/// `sizes` gives `k` a size that `v`'s estimator may return, every other
/// key of `m` a size that its value's estimator may return, and no other
/// key a size.
pub open spec fn estimated_sizes<R: MemoryEstimator>(
    m: Map<Seq<char>, CacheEntry<R>>,
    k: Seq<char>,
    v: R,
    sizes: Map<Seq<char>, usize>,
) -> bool {
    &&& sizes.dom() == m.dom().insert(k)
    &&& call_ensures(R::estimate_memory, (&v,), sizes[k])
    &&& forall|x: Seq<char>|
        #[trigger] m.contains_key(x) && x != k ==> call_ensures(
            R::estimate_memory,
            (&m[x].value,),
            sizes[x],
        )
}

/// The keys' total size is within the memory limit, if there is one.
pub open spec fn within_memory(ks: Seq<Seq<char>>, sizes: Map<Seq<char>, usize>, config: CacheConfig) -> bool {
    config.max_memory matches Some(max_mem) ==> total_size(ks, sizes) <= max_mem
}

/// The settings of a cache.
#[derive(Clone, Copy, Debug, PartialEq, Eq, Structural)]
pub struct CacheConfig {
    /// Largest number of entries kept, if bounded.
    pub limit: Option<usize>,
    /// Largest total of estimated entry sizes kept, in bytes, if bounded.
    pub max_memory: Option<usize>,
    /// The eviction policy.
    pub policy: EvictionPolicy,
    /// Time-to-live of entries in seconds, if they expire.
    pub ttl: Option<u64>,
}

/// Taking out the first occurrence of a key from a duplicate-free queue
/// leaves every other key and only those.
pub proof fn lemma_without_first(ks: Seq<Seq<char>>, k: Seq<char>)
    requires
        ks.no_duplicates(),
    ensures
        without_first(ks, k).no_duplicates(),
        forall|x: Seq<char>| without_first(ks, k).contains(x) <==> (ks.contains(x) && x != k),
        ks.contains(k) ==> without_first(ks, k).len() == ks.len() - 1,
        !ks.contains(k) ==> without_first(ks, k) == ks,
{
    lemma_first_index(ks, k);
    let i = first_index(ks, k);
    if i >= 0 {
        let r = ks.remove(i);
        assert forall|x: Seq<char>| r.contains(x) <==> (ks.contains(x) && x != k) by {
            if r.contains(x) {
                let j = choose|j: int| 0 <= j < r.len() && r[j] == x;
                if j < i {
                    assert(ks[j] == x);
                    assert(j != i);
                } else {
                    assert(ks[j + 1] == x);
                    assert(j + 1 != i);
                }
            }
            if ks.contains(x) && x != k {
                let j = choose|j: int| 0 <= j < ks.len() && ks[j] == x;
                assert(j != i);
                if j < i {
                    assert(r[j] == x);
                } else {
                    assert(r[j - 1] == x);
                }
            }
        }
        assert forall|a: int, b: int| 0 <= a < r.len() && 0 <= b < r.len() && a != b implies r[a]
            != r[b] by {
            let oa = if a < i { a } else { a + 1 };
            let ob = if b < i { b } else { b + 1 };
            assert(r[a] == ks[oa]);
            assert(r[b] == ks[ob]);
        }
    }
}

/// Storing an entry keeps the map and the queue in agreement.
pub proof fn lemma_stored_consistent<R>(
    m: Map<Seq<char>, CacheEntry<R>>,
    ks: Seq<Seq<char>>,
    k: Seq<char>,
    e: CacheEntry<R>,
)
    requires
        consistent(m, ks),
    ensures
        consistent(stored(m, ks, k, e).0, stored(m, ks, k, e).1),
{
    lemma_without_first(ks, k);
    let w = without_first(ks, k);
    let p = w.push(k);
    assert forall|x: Seq<char>| p.contains(x) <==> (w.contains(x) || x == k) by {
        if p.contains(x) {
            let j = choose|j: int| 0 <= j < p.len() && p[j] == x;
            if j < w.len() {
                assert(w[j] == x);
            }
        }
        if w.contains(x) {
            let j = choose|j: int| 0 <= j < w.len() && w[j] == x;
            assert(p[j] == x);
        }
        if x == k {
            assert(p[w.len() as int] == x);
        }
    }
    assert forall|a: int, b: int| 0 <= a < p.len() && 0 <= b < p.len() && a != b implies p[a]
        != p[b] by {
        if a < w.len() && b < w.len() {
            assert(p[a] == w[a] && p[b] == w[b]);
        } else if a < w.len() {
            assert(p[a] == w[a]);
            assert(w.contains(w[a]));
        } else {
            assert(p[b] == w[b]);
            assert(w.contains(w[b]));
        }
    }
    let m2 = m.insert(k, e);
    assert forall|x: Seq<char>| m2.contains_key(x) <==> p.contains(x) by {
        assert(m.contains_key(x) <==> ks.contains(x));
        assert(p.contains(x) <==> (w.contains(x) || x == k));
        assert(w.contains(x) <==> (ks.contains(x) && x != k));
        if x != k {
            assert(m2.contains_key(x) == m.contains_key(x));
        }
    }
}

/// Storing an entry under a key that is not yet present, at the back of the
/// queue, keeps the map and the queue in agreement.
pub proof fn lemma_placed_consistent<R>(
    m: Map<Seq<char>, CacheEntry<R>>,
    ks: Seq<Seq<char>>,
    k: Seq<char>,
    e: CacheEntry<R>,
)
    requires
        consistent(m, ks),
        !m.contains_key(k),
    ensures
        consistent(placed(m, ks, k, e).0, placed(m, ks, k, e).1),
{
    lemma_first_index(ks, k);
    assert(without_first(ks, k) == ks);
    lemma_stored_consistent(m, ks, k, e);
}

/// Evicting for memory only ever takes entries out.
pub proof fn lemma_after_memory_shrinks<R>(
    m: Map<Seq<char>, CacheEntry<R>>,
    ks: Seq<Seq<char>>,
    sizes: Map<Seq<char>, usize>,
    policy: EvictionPolicy,
    max_mem: usize,
)
    ensures
        forall|x: Seq<char>| #[trigger] after_memory(m, ks, sizes, policy, max_mem).0.contains_key(x)
            ==> m.contains_key(x) && after_memory(m, ks, sizes, policy, max_mem).0[x] == m[x],
    decreases ks.len(),
{
    if total_size(ks, sizes) > max_mem {
        if let Some(v) = victim(m, ks, policy) {
            if ks.contains(v) {
                lemma_first_index(ks, v);
                lemma_after_memory_shrinks(m.remove(v), without_first(ks, v), sizes, policy, max_mem);
                assert(after_memory(m, ks, sizes, policy, max_mem) == after_memory(
                    m.remove(v),
                    without_first(ks, v),
                    sizes,
                    policy,
                    max_mem,
                ));
            }
        }
    }
}

/// The total size of a queue with one more key at the back.
pub proof fn lemma_total_size_push(ks: Seq<Seq<char>>, sizes: Map<Seq<char>, usize>, k: Seq<char>)
    ensures
        total_size(ks.push(k), sizes) == total_size(ks, sizes) + size_of_key(sizes, k),
{
    assert(ks.push(k).drop_last() =~= ks);
}

/// Dropping a key from both the map and the queue keeps them in agreement.
pub proof fn lemma_evicted_consistent<R>(
    m: Map<Seq<char>, CacheEntry<R>>,
    ks: Seq<Seq<char>>,
    k: Seq<char>,
)
    requires
        consistent(m, ks),
    ensures
        consistent(m.remove(k), without_first(ks, k)),
{
    lemma_without_first(ks, k);
    let m2 = m.remove(k);
    let w = without_first(ks, k);
    assert forall|x: Seq<char>| m2.contains_key(x) <==> w.contains(x) by {
        assert(m.contains_key(x) <==> ks.contains(x));
        assert(w.contains(x) <==> (ks.contains(x) && x != k));
        if x != k {
            assert(m2.contains_key(x) == m.contains_key(x));
        }
    }
}

/// The least accessed key, when there is one, occurs in the queue and is
/// present in the map.
pub proof fn lemma_min_frequency_key_found<R>(m: Map<Seq<char>, CacheEntry<R>>, ks: Seq<Seq<char>>)
    ensures
        min_frequency_key(m, ks) matches Some(k) ==> ks.contains(k) && m.contains_key(k),
    decreases ks.len(),
{
    if ks.len() > 0 {
        lemma_min_frequency_key_found(m, ks.drop_last());
        if let Some(k) = min_frequency_key(m, ks.drop_last()) {
            let j = choose|j: int| 0 <= j < ks.drop_last().len() && ks.drop_last()[j] == k;
            assert(ks[j] == k);
        }
        assert(ks[ks.len() - 1] == ks.last());
    }
}

/// The key of least ARC score, when there is one, occurs in the queue and is
/// present in the map.
pub proof fn lemma_arc_scan_found<R>(m: Map<Seq<char>, CacheEntry<R>>, ks: Seq<Seq<char>>, t: int)
    requires
        t <= ks.len(),
    ensures
        arc_scan(m, ks, t) matches Some(p) ==> ks.contains(p.0) && m.contains_key(p.0),
    decreases t,
{
    if t > 0 {
        lemma_arc_scan_found(m, ks, t - 1);
        assert(ks[t - 1] == ks[t - 1]);
    }
}

/// Under agreement of map and queue, every victim is a key of both.
pub proof fn lemma_victim_found<R>(
    m: Map<Seq<char>, CacheEntry<R>>,
    ks: Seq<Seq<char>>,
    policy: EvictionPolicy,
)
    requires
        consistent(m, ks),
    ensures
        victim(m, ks, policy) matches Some(v) ==> ks.contains(v) && m.contains_key(v),
        victim(m, ks, policy) is None ==> ks.len() == 0,
{
    lemma_min_frequency_key_found(m, ks);
    lemma_arc_scan_found(m, ks, ks.len() as int);
    law_min_frequency_key_is_least(m, ks);
    law_arc_key_is_least(m, ks, ks.len() as int);
    if ks.len() > 0 {
        assert(ks.contains(ks[0]));
        assert(m.contains_key(ks[0]));
    }
}

/// Drops the policy's victim, if any, from the map and the queue.
fn evict_victim<R>(map: &mut CacheMap<R>, order: &mut VecDeque<String>, policy: EvictionPolicy) -> (r: bool)
    requires
        consistent(old(map)@, keys_view(old(order)@)),
    ensures
        match victim(old(map)@, keys_view(old(order)@), policy) {
            Some(v) => r && final(map)@ == old(map)@.remove(v) && keys_view(final(order)@)
                == without_first(keys_view(old(order)@), v),
            None => !r && final(map)@ == old(map)@ && final(order)@ == old(order)@,
        },
{
    let chosen = match policy {
        EvictionPolicy::LFU => find_min_frequency_key(map, order),
        EvictionPolicy::ARC => find_arc_eviction_key(map, order),
        _ => if order.len() > 0 {
            Some(order[0].clone())
        } else {
            None
        },
    };
    match chosen {
        Some(k) => {
            remove_key_from_cache_local(map, order, k.as_str());
            true
        },
        None => false,
    }
}

/// Makes room for one more entry under the entry-count limit: one eviction
/// when the queue has reached the limit.
fn enforce_limit<R>(
    map: &mut CacheMap<R>,
    order: &mut VecDeque<String>,
    limit: Option<usize>,
    policy: EvictionPolicy,
)
    requires
        consistent(old(map)@, keys_view(old(order)@)),
    ensures
        (final(map)@, keys_view(final(order)@)) == after_limit(
            old(map)@,
            keys_view(old(order)@),
            limit,
            policy,
        ),
        consistent(final(map)@, keys_view(final(order)@)),
{
    proof {
        lemma_victim_found(map@, keys_view(order@), policy);
    }
    match limit {
        Some(l) => {
            if order.len() >= l {
                let ghost v = victim(map@, keys_view(order@), policy);
                evict_victim(map, order, policy);
                proof {
                    if let Some(k) = v {
                        lemma_evicted_consistent(old(map)@, keys_view(old(order)@), k);
                    }
                }
            }
        },
        None => {},
    }
}

/// The sum of the recorded sizes of the keys of `order`.
fn total_size_of(order: &VecDeque<String>, sizes: &StrMap<usize>) -> (r: u128)
    ensures
        r == total_size(keys_view(order@), sizes@),
{
    let mut sum: u128 = 0;
    let mut i: usize = 0;
    while i < order.len()
        invariant
            0 <= i <= order@.len(),
            sum == total_size(keys_view(order@).take(i as int), sizes@),
            sum <= i * (usize::MAX as int),
        decreases order@.len() - i,
    {
        proof {
            let ks = keys_view(order@);
            assert(ks.take(i + 1).drop_last() =~= ks.take(i as int));
            assert(ks.take(i + 1).last() == order@[i as int]@);
        }
        let s: usize = match sizes.get(order[i].as_str()) {
            Some(v) => *v,
            None => 0,
        };
        assert((i + 1) * (usize::MAX as int) == i * (usize::MAX as int) + usize::MAX) by (nonlinear_arith);
        assert((i + 1) * (usize::MAX as int) <= u128::MAX) by (nonlinear_arith)
            requires
                i < usize::MAX,
                usize::MAX <= u64::MAX,
        ;
        sum = sum + s as u128;
        i = i + 1;
    }
    assert(keys_view(order@).take(order@.len() as int) =~= keys_view(order@));
    sum
}

/// Evicts victim after victim until the recorded sizes of the keys left add
/// up to at most `max_mem` or the policy offers no victim.
fn enforce_memory<R>(
    map: &mut CacheMap<R>,
    order: &mut VecDeque<String>,
    sizes: &StrMap<usize>,
    policy: EvictionPolicy,
    max_mem: usize,
)
    requires
        consistent(old(map)@, keys_view(old(order)@)),
    ensures
        (final(map)@, keys_view(final(order)@)) == after_memory(
            old(map)@,
            keys_view(old(order)@),
            sizes@,
            policy,
            max_mem,
        ),
        consistent(final(map)@, keys_view(final(order)@)),
{
    let ghost target = after_memory(map@, keys_view(order@), sizes@, policy, max_mem);
    loop
        invariant
            consistent(map@, keys_view(order@)),
            after_memory(map@, keys_view(order@), sizes@, policy, max_mem) == target,
        ensures
            (map@, keys_view(order@)) == target,
            consistent(map@, keys_view(order@)),
        decreases order@.len(),
    {
        let current = total_size_of(order, sizes);
        if current <= max_mem as u128 {
            break ;
        }
        let ghost m0 = map@;
        let ghost ks0 = keys_view(order@);
        proof {
            lemma_victim_found(m0, ks0, policy);
        }
        let evicted = evict_victim(map, order, policy);
        if !evicted {
            break ;
        }
        proof {
            let v = victim(m0, ks0, policy)->0;
            lemma_evicted_consistent(m0, ks0, v);
            lemma_without_first(ks0, v);
        }
    }
}

/// A bounded cache of values under string keys: a map of entries and a
/// queue that orders the keys for eviction, together with the settings that
/// govern expiry and eviction.
pub struct CacheStore<R> {
    map: CacheMap<R>,
    order: VecDeque<String>,
    config: CacheConfig,
    stats: CacheStats,
}

impl<R> CacheStore<R> {
    /// The map and the queue always agree.
    #[verifier::type_invariant]
    closed spec fn agree(self) -> bool {
        consistent(self.map@, keys_view(self.order@))
    }

    /// The entries, by key.
    pub closed spec fn entries(self) -> Map<Seq<char>, CacheEntry<R>> {
        self.map@
    }

    /// The keys in eviction order, front first.
    pub closed spec fn order_keys(self) -> Seq<Seq<char>> {
        keys_view(self.order@)
    }

    /// The settings.
    pub closed spec fn settings(self) -> CacheConfig {
        self.config
    }

    /// The hit and miss counts of reads.
    pub closed spec fn statistics(self) -> CacheStats {
        self.stats
    }

    /// An empty cache with the given settings.
    pub fn new(config: CacheConfig) -> (r: Self)
        ensures
            r.entries() == Map::<Seq<char>, CacheEntry<R>>::empty(),
            r.order_keys() == Seq::<Seq<char>>::empty(),
            r.settings() == config,
            r.statistics().hit_count() == 0,
            r.statistics().miss_count() == 0,
    {
        let order: VecDeque<String> = VecDeque::new();
        assert(keys_view(order@) =~= Seq::<Seq<char>>::empty());
        CacheStore { map: StrMap::new(), order, config, stats: CacheStats::new() }
    }

    /// The hit and miss counts of reads.
    pub fn stats(&self) -> (r: &CacheStats)
        ensures
            *r == self.statistics(),
    {
        &self.stats
    }

    /// Sets the hit and miss counts back to zero.
    pub fn reset_stats(&mut self)
        ensures
            final(self).statistics().hit_count() == 0,
            final(self).statistics().miss_count() == 0,
            final(self).entries() == old(self).entries(),
            final(self).order_keys() == old(self).order_keys(),
            final(self).settings() == old(self).settings(),
    {
        let (map, order) = self.take_parts();
        self.put_parts(map, order, CacheStats::new());
    }

    /// The settings.
    pub fn config(&self) -> (r: CacheConfig)
        ensures
            r == self.settings(),
    {
        self.config
    }

    /// Moves the map and the queue out, leaving an empty cache behind.
    fn take_parts(&mut self) -> (r: (CacheMap<R>, VecDeque<String>))
        ensures
            r.0@ == old(self).entries(),
            keys_view(r.1@) == old(self).order_keys(),
            consistent(r.0@, keys_view(r.1@)),
            final(self).settings() == old(self).settings(),
            final(self).statistics() == old(self).statistics(),
    {
        proof {
            use_type_invariant(&*self);
        }
        let config = self.config;
        let stats = self.stats;
        let empty: VecDeque<String> = VecDeque::new();
        assert(keys_view(empty@) =~= Seq::<Seq<char>>::empty());
        let mut tmp = CacheStore { map: StrMap::new(), order: empty, config, stats };
        std::mem::swap(&mut tmp, self);
        let CacheStore { map, order, config: _, stats: _ } = tmp;
        (map, order)
    }

    /// Puts a map and a queue that agree back in place.
    fn put_parts(&mut self, map: CacheMap<R>, order: VecDeque<String>, stats: CacheStats)
        requires
            consistent(map@, keys_view(order@)),
        ensures
            final(self).entries() == map@,
            final(self).order_keys() == keys_view(order@),
            final(self).settings() == old(self).settings(),
            final(self).statistics() == stats,
    {
        let config = self.config;
        *self = CacheStore { map, order, config, stats };
    }

    /// Number of entries.
    pub fn len(&self) -> (r: usize)
        ensures
            r == self.entries().len(),
    {
        self.map.len()
    }

    /// The keys in eviction order, front first.
    pub fn keys(&self) -> (r: Vec<String>)
        ensures
            keys_view(r@) == self.order_keys(),
    {
        let mut r: Vec<String> = Vec::new();
        let mut i: usize = 0;
        while i < self.order.len()
            invariant
                0 <= i <= self.order@.len(),
                r@.len() == i,
                forall|j: int| 0 <= j < i ==> #[trigger] r@[j]@ == self.order@[j]@,
            decreases self.order@.len() - i,
        {
            r.push(self.order[i].clone());
            i = i + 1;
        }
        assert(keys_view(r@) =~= keys_view(self.order@));
        r
    }

    /// Takes out any entry under `key`, makes room under the entry-count
    /// limit among the other entries, then stores `entry` under `key` as the
    /// most recent entry.
    pub fn insert_entry(&mut self, key: &str, entry: CacheEntry<R>)
        ensures
            (final(self).entries(), final(self).order_keys()) == after_insert(
                old(self).entries(),
                old(self).order_keys(),
                old(self).settings(),
                key@,
                entry,
            ),
            final(self).settings() == old(self).settings(),
            final(self).statistics() == old(self).statistics(),
            consistent(final(self).entries(), final(self).order_keys()),
    {
        let ghost e = entry;
        let (mut map, mut order) = self.take_parts();
        proof {
            lemma_evicted_consistent(map@, keys_view(order@), key@);
        }
        remove_key_from_cache_local(&mut map, &mut order, key);
        enforce_limit(&mut map, &mut order, self.config.limit, self.config.policy);
        let ghost ks1 = keys_view(order@);
        proof {
            lemma_placed_consistent(map@, ks1, key@, e);
        }
        map.insert(String::from_str(key), entry);
        order.push_back(String::from_str(key));
        assert(keys_view(order@) =~= ks1.push(key@));
        let stats = self.stats;
        self.put_parts(map, order, stats);
    }

    /// Stores `value` under `key` as the most recent entry, stamped with the
    /// current time, after making room under the entry-count limit.
    pub fn insert(&mut self, key: &str, value: R)
        ensures
            exists|e: CacheEntry<R>|
                e.value == value && e.frequency == 0 && (final(self).entries(), final(self).order_keys()) == after_insert(
                    old(self).entries(),
                    old(self).order_keys(),
                    old(self).settings(),
                    key@,
                    e,
                ),
            final(self).settings() == old(self).settings(),
            final(self).statistics() == old(self).statistics(),
            consistent(final(self).entries(), final(self).order_keys()),
    {
        let entry = CacheEntry::new(value);
        let ghost e = entry;
        self.insert_entry(key, entry);
        assert(e.value == value && e.frequency == 0);
    }

    /// Takes `key` out of the cache; returns whether it was there.
    pub fn remove(&mut self, key: &str) -> (r: bool)
        ensures
            final(self).entries() == old(self).entries().remove(key@),
            final(self).order_keys() == without_first(old(self).order_keys(), key@),
            r == old(self).entries().contains_key(key@),
            final(self).settings() == old(self).settings(),
            final(self).statistics() == old(self).statistics(),
            consistent(final(self).entries(), final(self).order_keys()),
    {
        let (mut map, mut order) = self.take_parts();
        proof {
            lemma_evicted_consistent(map@, keys_view(order@), key@);
        }
        let r = remove_key_from_cache_local(&mut map, &mut order, key);
        let stats = self.stats;
        self.put_parts(map, order, stats);
        r
    }

    /// Empties the cache.
    pub fn clear(&mut self)
        ensures
            final(self).entries() == Map::<Seq<char>, CacheEntry<R>>::empty(),
            final(self).order_keys() == Seq::<Seq<char>>::empty(),
            final(self).settings() == old(self).settings(),
            final(self).statistics() == old(self).statistics(),
    {
        let (_, _) = self.take_parts();
        let map: CacheMap<R> = StrMap::new();
        let order: VecDeque<String> = VecDeque::new();
        assert(keys_view(order@) =~= Seq::<Seq<char>>::empty());
        let stats = self.stats;
        self.put_parts(map, order, stats);
    }
}

impl<R: Clone> CacheStore<R> {
    /// Reads `key` given the age of its entry in whole seconds. A missing key
    /// changes nothing; an expired entry is dropped and reads as missing; a
    /// live entry is returned, and the read is recorded as the policy asks.
    pub fn get_at_age(&mut self, key: &str, age_secs: u64) -> (r: Option<R>)
        ensures
            (final(self).entries(), final(self).order_keys()) == after_get(
                old(self).entries(),
                old(self).order_keys(),
                old(self).settings(),
                key@,
                age_secs,
            ),
            read_result(old(self).entries(), old(self).settings().ttl, key@, age_secs, r),
            recorded(old(self).statistics(), final(self).statistics(), r is Some),
            final(self).settings() == old(self).settings(),
            consistent(final(self).entries(), final(self).order_keys()),
    {
        let ttl = self.config.ttl;
        let policy = self.config.policy;
        let (mut map, mut order) = self.take_parts();
        let ghost m0 = map@;
        let ghost ks0 = keys_view(order@);
        let (present, expired, value) = match map.get(key) {
            Some(entry) => {
                if ttl_exceeded(age_secs, ttl) {
                    (true, true, None)
                } else {
                    (true, false, Some(entry.value.clone()))
                }
            },
            None => (false, false, None),
        };
        let mut stats = self.stats;
        if !present {
            stats.record_miss();
            self.put_parts(map, order, stats);
            return None;
        }
        if expired {
            proof {
                lemma_evicted_consistent(m0, ks0, key@);
            }
            remove_key_from_cache_local(&mut map, &mut order, key);
            stats.record_miss();
            self.put_parts(map, order, stats);
            return None;
        }
        proof {
            lemma_first_index(ks0, key@);
            lemma_stored_consistent(m0, ks0, key@, m0[key@]);
            lemma_stored_consistent(m0, ks0, key@, bumped(m0[key@]));
            assert(ks0.contains(key@));
            assert(moved_to_end(ks0, key@) == without_first(ks0, key@).push(key@));
            assert(m0.insert(key@, m0[key@]) =~= m0);
        }
        match policy {
            EvictionPolicy::LRU => {
                move_key_to_end(&mut order, key);
            },
            EvictionPolicy::LFU => {
                Self::increment_frequency(&mut map, key);
            },
            EvictionPolicy::ARC => {
                move_key_to_end(&mut order, key);
                Self::increment_frequency(&mut map, key);
            },
            EvictionPolicy::FIFO => {},
        }
        stats.record_hit();
        self.put_parts(map, order, stats);
        value
    }

    /// Counts one more access on the entry under `key`, which is present.
    fn increment_frequency(map: &mut CacheMap<R>, key: &str)
        requires
            old(map)@.contains_key(key@),
        ensures
            final(map)@ == old(map)@.insert(key@, bumped(old(map)@[key@])),
    {
        let removed = map.remove(key);
        match removed {
            Some(mut e) => {
                e.increment_frequency();
                map.insert(String::from_str(key), e);
                assert(map@ =~= old(map)@.insert(key@, bumped(old(map)@[key@])));
            },
            None => {},
        }
    }

    /// Reads `key`: a missing key changes nothing; an entry older than the
    /// time-to-live is dropped and reads as missing; a live entry is returned,
    /// and the read is recorded as the policy asks (LRU and ARC move the key
    /// to the back of the queue, LFU and ARC count an access).
    pub fn get(&mut self, key: &str) -> (r: Option<R>)
        ensures
            exists|age_secs: u64|
                #![trigger read_result(old(self).entries(), old(self).settings().ttl, key@, age_secs, r)]
                (final(self).entries(), final(self).order_keys()) == after_get(
                    old(self).entries(),
                    old(self).order_keys(),
                    old(self).settings(),
                    key@,
                    age_secs,
                ) && read_result(old(self).entries(), old(self).settings().ttl, key@, age_secs, r),
            !old(self).entries().contains_key(key@) ==> r is None && final(self).entries()
                == old(self).entries() && final(self).order_keys() == old(self).order_keys(),
            old(self).settings().ttl is None && old(self).entries().contains_key(key@) ==> r is Some,
            recorded(old(self).statistics(), final(self).statistics(), r is Some),
            final(self).settings() == old(self).settings(),
            consistent(final(self).entries(), final(self).order_keys()),
    {
        let age: u64 = match self.config.ttl {
            Some(_) => match self.map.get(key) {
                Some(e) => e.age_secs(),
                None => 0,
            },
            None => 0,
        };
        let r = self.get_at_age(key, age);
        assert(read_result(old(self).entries(), old(self).settings().ttl, key@, age, r));
        r
    }
}

impl<R> CacheStore<R> {
    /// Stores `entry` under `key` as the most recent entry after making room
    /// for it: any entry under `key` is taken out, other entries are evicted
    /// until the new one fits in the memory limit using the given size of
    /// every entry (an entry with no recorded size counts as zero), and room
    /// is made under the entry-count limit. An entry
    /// larger than the memory limit by itself is not stored, and the cache
    /// stays as it was.
    pub fn insert_sized(&mut self, key: &str, entry: CacheEntry<R>, sizes: &StrMap<usize>)
        ensures
            (final(self).entries(), final(self).order_keys()) == after_insert_sized(
                old(self).entries(),
                old(self).order_keys(),
                old(self).settings(),
                key@,
                entry,
                sizes@,
            ),
            final(self).settings() == old(self).settings(),
            final(self).statistics() == old(self).statistics(),
            consistent(final(self).entries(), final(self).order_keys()),
    {
        let ghost e = entry;
        let config = self.config;
        if let Some(max_mem) = config.max_memory {
            let new_size: usize = match sizes.get(key) {
                Some(v) => *v,
                None => 0,
            };
            if new_size > max_mem {
                proof {
                    use_type_invariant(&*self);
                }
                return ;
            }
        }
        let (mut map, mut order) = self.take_parts();
        let ghost m0 = map@;
        let ghost ks0 = keys_view(order@);
        proof {
            lemma_evicted_consistent(m0, ks0, key@);
        }
        remove_key_from_cache_local(&mut map, &mut order, key);
        match config.max_memory {
            None => {
                proof {
                    lemma_after_limit_consistent(map@, keys_view(order@), config.limit, config.policy);
                }
                enforce_limit(&mut map, &mut order, config.limit, config.policy);
            },
            Some(max_mem) => {
                let new_size: usize = match sizes.get(key) {
                    Some(v) => *v,
                    None => 0,
                };
                let ghost m1 = map@;
                let ghost ks1 = keys_view(order@);
                enforce_memory(&mut map, &mut order, sizes, config.policy, max_mem - new_size);
                proof {
                    lemma_after_memory_shrinks(m1, ks1, sizes@, config.policy, (max_mem - new_size) as usize);
                    let bud = (max_mem - new_size) as usize;
                    assert(!m1.contains_key(key@));
                    assert(map@ == after_memory(m1, ks1, sizes@, config.policy, bud).0);
                    assert(after_memory(m1, ks1, sizes@, config.policy, bud).0.contains_key(key@)
                        ==> m1.contains_key(key@));
                    assert(!map@.contains_key(key@));
                    lemma_after_limit_consistent(map@, keys_view(order@), config.limit, config.policy);
                }
                enforce_limit(&mut map, &mut order, config.limit, config.policy);
            },
        }
        let ghost ks2 = keys_view(order@);
        proof {
            lemma_placed_consistent(map@, ks2, key@, e);
        }
        map.insert(String::from_str(key), entry);
        order.push_back(String::from_str(key));
        assert(keys_view(order@) =~= ks2.push(key@));
        let stats = self.stats;
        self.put_parts(map, order, stats);
    }
}

impl<R: MemoryEstimator> CacheStore<R> {
    /// The estimated size of every entry, and of `value` under `key`.
    fn estimate_sizes(&self, key: &str, value: &R) -> (r: StrMap<usize>)
        ensures
            r@.contains_key(key@),
            call_ensures(R::estimate_memory, (value,), r@[key@]),
            forall|k: Seq<char>|
                #[trigger] r@.contains_key(k) ==> k == key@ || self.entries().contains_key(k),
            forall|k: Seq<char>|
                #[trigger] self.entries().contains_key(k) && k != key@ ==> r@.contains_key(k)
                    && call_ensures(R::estimate_memory, (&self.entries()[k].value,), r@[k]),
    {
        proof {
            use_type_invariant(self);
        }
        let mut sizes: StrMap<usize> = StrMap::new();
        let mut i: usize = 0;
        while i < self.order.len()
            invariant
                0 <= i <= self.order@.len(),
                consistent(self.map@, keys_view(self.order@)),
                forall|k: Seq<char>| #[trigger] sizes@.contains_key(k) ==> self.map@.contains_key(k),
                forall|j: int|
                    0 <= j < i && #[trigger] self.map@.contains_key(self.order@[j]@) ==> sizes@.contains_key(
                        self.order@[j]@,
                    ) && call_ensures(
                        R::estimate_memory,
                        (&self.map@[self.order@[j]@].value,),
                        sizes@[self.order@[j]@],
                    ),
            decreases self.order@.len() - i,
        {
            let k = &self.order[i];
            match self.map.get(k.as_str()) {
                Some(e) => {
                    let size = e.value.estimate_memory();
                    sizes.insert(k.clone(), size);
                },
                None => {},
            }
            i = i + 1;
        }
        proof {
            assert forall|k: Seq<char>| #[trigger] self.map@.contains_key(k) implies sizes@.contains_key(k)
                && call_ensures(R::estimate_memory, (&self.map@[k].value,), sizes@[k]) by {
                assert(keys_view(self.order@).contains(k));
                let j = choose|j: int| 0 <= j < keys_view(self.order@).len() && keys_view(self.order@)[j] == k;
                assert(self.order@[j]@ == k);
            }
        }
        sizes.insert(String::from_str(key), value.estimate_memory());
        sizes
    }

    /// Stores `value` under `key` as the most recent entry, stamped with the
    /// current time, after making room for it under the memory limit (with
    /// sizes from `MemoryEstimator`) and the entry-count limit. A value larger than the
    /// memory limit by itself is not stored, and the cache stays as it was.
    /// The sizes are the estimates of the values: of `value` under `key`,
    /// and of the stored value under every other key. After the insertion
    /// the cache is within the memory limit if it was before or if the value
    /// fits in the limit by itself.
    pub fn insert_with_memory(&mut self, key: &str, value: R)
        ensures
            exists|e: CacheEntry<R>, sizes: Map<Seq<char>, usize>|
                #![trigger after_insert_sized(old(self).entries(), old(self).order_keys(), old(self).settings(), key@, e, sizes)]
                {
                    &&& e.value == value
                    &&& e.frequency == 0
                    &&& estimated_sizes(old(self).entries(), key@, value, sizes)
                    &&& (final(self).entries(), final(self).order_keys()) == after_insert_sized(
                        old(self).entries(),
                        old(self).order_keys(),
                        old(self).settings(),
                        key@,
                        e,
                        sizes,
                    )
                    &&& within_memory(old(self).order_keys(), sizes, old(self).settings())
                        ==> within_memory(final(self).order_keys(), sizes, old(self).settings())
                    &&& (old(self).settings().max_memory matches Some(max_mem) && size_of_key(
                        sizes,
                        key@,
                    ) <= max_mem) ==> within_memory(
                        final(self).order_keys(),
                        sizes,
                        old(self).settings(),
                    )
                },
            final(self).settings() == old(self).settings(),
            final(self).statistics() == old(self).statistics(),
            consistent(final(self).entries(), final(self).order_keys()),
    {
        proof {
            use_type_invariant(&*self);
        }
        let entry = CacheEntry::new(value);
        let sizes = self.estimate_sizes(key, &entry.value);
        let ghost e = entry;
        assert(sizes@.dom() =~= old(self).entries().dom().insert(key@));
        self.insert_sized(key, entry, &sizes);
        proof {
            let config = old(self).settings();
            if config.max_memory is Some && (within_memory(old(self).order_keys(), sizes@, config)
                || size_of_key(sizes@, key@) <= config.max_memory->0) {
                law_insert_respects_memory(old(self).entries(), old(self).order_keys(), config, key@, e, sizes@);
            }
        }
        assert(e.value == value && e.frequency == 0);
        assert((self.entries(), self.order_keys()) == after_insert_sized(
            old(self).entries(),
            old(self).order_keys(),
            old(self).settings(),
            key@,
            e,
            sizes@,
        ));
    }
}

impl<T: Clone, E> CacheStore<Result<T, E>> {
    /// Caches a successful result: `Ok(v)` is stored as a fresh `Ok` clone
    /// of `v` (with the entry-count limit applied); an error is not cached
    /// and leaves the cache unchanged.
    pub fn insert_result(&mut self, key: &str, value: &Result<T, E>)
        ensures
            value is Err ==> final(self).entries() == old(self).entries() && final(self).order_keys()
                == old(self).order_keys(),
            value matches Ok(v) ==> exists|e: CacheEntry<Result<T, E>>|
                #![trigger after_insert(old(self).entries(), old(self).order_keys(), old(self).settings(), key@, e)]
                (e.value matches Ok(c) && cloned(*v, c)) && e.frequency == 0 && (final(self).entries(), final(self).order_keys()) == after_insert(
                    old(self).entries(),
                    old(self).order_keys(),
                    old(self).settings(),
                    key@,
                    e,
                ),
            final(self).settings() == old(self).settings(),
            final(self).statistics() == old(self).statistics(),
            consistent(final(self).entries(), final(self).order_keys()),
    {
        proof {
            use_type_invariant(&*self);
        }
        match value {
            Ok(v) => {
                let c = v.clone();
                let entry = CacheEntry::new(Ok(c));
                let ghost e = entry;
                self.insert_entry(key, entry);
                assert((self.entries(), self.order_keys()) == after_insert(
                    old(self).entries(),
                    old(self).order_keys(),
                    old(self).settings(),
                    key@,
                    e,
                ));
            },
            Err(_) => {},
        }
    }
}

impl<T: Clone + MemoryEstimator, E: MemoryEstimator> CacheStore<Result<T, E>> {
    /// Caches a successful result under the memory limit as well: `Ok(v)` is
    /// stored as a fresh `Ok` clone of `v` as `insert_with_memory` stores a
    /// value, with the same sizes and the same memory bound; an error is not
    /// cached and leaves the cache unchanged.
    pub fn insert_result_with_memory(&mut self, key: &str, value: &Result<T, E>)
        ensures
            value is Err ==> final(self).entries() == old(self).entries() && final(self).order_keys()
                == old(self).order_keys(),
            value matches Ok(v) ==> exists|e: CacheEntry<Result<T, E>>, sizes: Map<Seq<char>, usize>|
                #![trigger after_insert_sized(old(self).entries(), old(self).order_keys(), old(self).settings(), key@, e, sizes)]
                {
                    &&& (e.value matches Ok(c) && cloned(*v, c))
                    &&& e.frequency == 0
                    &&& estimated_sizes(old(self).entries(), key@, e.value, sizes)
                    &&& (final(self).entries(), final(self).order_keys()) == after_insert_sized(
                        old(self).entries(),
                        old(self).order_keys(),
                        old(self).settings(),
                        key@,
                        e,
                        sizes,
                    )
                    &&& within_memory(old(self).order_keys(), sizes, old(self).settings())
                        ==> within_memory(final(self).order_keys(), sizes, old(self).settings())
                    &&& (old(self).settings().max_memory matches Some(max_mem) && size_of_key(
                        sizes,
                        key@,
                    ) <= max_mem) ==> within_memory(
                        final(self).order_keys(),
                        sizes,
                        old(self).settings(),
                    )
                },
            final(self).settings() == old(self).settings(),
            final(self).statistics() == old(self).statistics(),
            consistent(final(self).entries(), final(self).order_keys()),
    {
        proof {
            use_type_invariant(&*self);
        }
        match value {
            Ok(v) => {
                let c = v.clone();
                let entry = CacheEntry::new(Ok(c));
                let sizes = self.estimate_sizes(key, &entry.value);
                let ghost e = entry;
                assert(sizes@.dom() =~= old(self).entries().dom().insert(key@));
                self.insert_sized(key, entry, &sizes);
                proof {
                    let config = old(self).settings();
                    if config.max_memory is Some && (within_memory(old(self).order_keys(), sizes@, config)
                || size_of_key(sizes@, key@) <= config.max_memory->0) {
                        law_insert_respects_memory(old(self).entries(), old(self).order_keys(), config, key@, e, sizes@);
                    }
                }
                assert((self.entries(), self.order_keys()) == after_insert_sized(
                    old(self).entries(),
                    old(self).order_keys(),
                    old(self).settings(),
                    key@,
                    e,
                    sizes@,
                ));
            },
            Err(_) => {},
        }
    }
}

/// Read after write: once an entry is stored under a key, the key holds
/// that entry and is the most recent key. Room is made among the other
/// entries before the new one is stored, so the new entry is never the one
/// evicted.
pub proof fn law_read_after_insert<R>(
    m: Map<Seq<char>, CacheEntry<R>>,
    ks: Seq<Seq<char>>,
    config: CacheConfig,
    k: Seq<char>,
    e: CacheEntry<R>,
)
    ensures
        after_insert(m, ks, config, k, e).0.contains_key(k),
        after_insert(m, ks, config, k, e).0[k] == e,
        after_insert(m, ks, config, k, e).1.last() == k,
{
}

/// Read after write under the memory limit: a value that fits in the limit
/// by itself is stored under its key as the most recent entry.
pub proof fn law_read_after_insert_sized<R>(
    m: Map<Seq<char>, CacheEntry<R>>,
    ks: Seq<Seq<char>>,
    config: CacheConfig,
    k: Seq<char>,
    e: CacheEntry<R>,
    sizes: Map<Seq<char>, usize>,
)
    requires
        config.max_memory matches Some(max_mem) ==> size_of_key(sizes, k) <= max_mem,
    ensures
        after_insert_sized(m, ks, config, k, e, sizes).0.contains_key(k),
        after_insert_sized(m, ks, config, k, e, sizes).0[k] == e,
        after_insert_sized(m, ks, config, k, e, sizes).1.last() == k,
{
}

/// Making room takes out the key it takes from the queue, and only that.
pub proof fn lemma_after_limit_consistent<R>(
    m: Map<Seq<char>, CacheEntry<R>>,
    ks: Seq<Seq<char>>,
    limit: Option<usize>,
    policy: EvictionPolicy,
)
    requires
        consistent(m, ks),
    ensures
        consistent(after_limit(m, ks, limit, policy).0, after_limit(m, ks, limit, policy).1),
        forall|x: Seq<char>| #[trigger] after_limit(m, ks, limit, policy).0.contains_key(x)
            ==> m.contains_key(x),
        after_limit(m, ks, limit, policy).1.len() <= ks.len(),
        limit matches Some(l) && ks.len() >= l && ks.len() > 0 ==> after_limit(
            m,
            ks,
            limit,
            policy,
        ).1.len() == ks.len() - 1,
{
    lemma_victim_found(m, ks, policy);
    if let Some(v) = victim(m, ks, policy) {
        lemma_without_first(ks, v);
        lemma_evicted_consistent(m, ks, v);
    }
}

/// The entry-count limit holds after an insertion into a cache that was
/// within it, for a limit of at least one.
pub proof fn law_insert_respects_limit<R>(
    m: Map<Seq<char>, CacheEntry<R>>,
    ks: Seq<Seq<char>>,
    config: CacheConfig,
    k: Seq<char>,
    e: CacheEntry<R>,
)
    requires
        consistent(m, ks),
        config.limit matches Some(l) && l >= 1,
        ks.len() <= config.limit->0,
    ensures
        after_insert(m, ks, config, k, e).1.len() <= config.limit->0,
        after_insert(m, ks, config, k, e).0.len() == after_insert(m, ks, config, k, e).1.len(),
        consistent(after_insert(m, ks, config, k, e).0, after_insert(m, ks, config, k, e).1),
{
    lemma_without_first(ks, k);
    lemma_evicted_consistent(m, ks, k);
    let m0 = m.remove(k);
    let ks0 = without_first(ks, k);
    lemma_after_limit_consistent(m0, ks0, config.limit, config.policy);
    let t = after_limit(m0, ks0, config.limit, config.policy);
    lemma_placed_consistent(t.0, t.1, k, e);
    let s = after_insert(m, ks, config, k, e);
    lemma_consistent_len(s.0, s.1);
}

/// A map and a queue in agreement have as many entries as keys.
pub proof fn lemma_consistent_len<R>(m: Map<Seq<char>, CacheEntry<R>>, ks: Seq<Seq<char>>)
    requires
        consistent(m, ks),
    ensures
        m.dom().finite(),
        m.len() == ks.len(),
{
    assert(m.dom() =~= ks.to_set());
    ks.unique_seq_to_set();
}

/// Taking the key at position `i` out of a queue lowers the total size by
/// that key's size.
pub proof fn lemma_total_size_remove(ks: Seq<Seq<char>>, sizes: Map<Seq<char>, usize>, i: int)
    requires
        0 <= i < ks.len(),
    ensures
        total_size(ks.remove(i), sizes) + size_of_key(sizes, ks[i]) == total_size(ks, sizes),
    decreases ks.len(),
{
    if i == ks.len() - 1 {
        assert(ks.remove(i) =~= ks.drop_last());
    } else {
        lemma_total_size_remove(ks.drop_last(), sizes, i);
        assert(ks.remove(i).drop_last() =~= ks.drop_last().remove(i));
        assert(ks.remove(i).last() == ks.last());
    }
}

/// Evicting for memory ends within the memory limit, under every policy.
pub proof fn law_memory_eviction_reaches_limit<R>(
    m: Map<Seq<char>, CacheEntry<R>>,
    ks: Seq<Seq<char>>,
    sizes: Map<Seq<char>, usize>,
    policy: EvictionPolicy,
    max_mem: usize,
)
    requires
        consistent(m, ks),
    ensures
        total_size(after_memory(m, ks, sizes, policy, max_mem).1, sizes) <= max_mem,
        consistent(after_memory(m, ks, sizes, policy, max_mem).0, after_memory(m, ks, sizes, policy, max_mem).1),
    decreases ks.len(),
{
    if total_size(ks, sizes) > max_mem {
        assert(ks.len() > 0);
        lemma_victim_found(m, ks, policy);
        law_min_frequency_key_is_least(m, ks);
        law_arc_key_is_least(m, ks, ks.len() as int);
        assert(m.contains_key(ks[0])) by {
            assert(ks.contains(ks[0]));
        }
        let v = victim(m, ks, policy)->0;
        lemma_evicted_consistent(m, ks, v);
        lemma_without_first(ks, v);
        law_memory_eviction_reaches_limit(m.remove(v), without_first(ks, v), sizes, policy, max_mem);
    }
}

/// Dropping the first occurrence of a key never raises the total size.
pub proof fn lemma_total_size_without_first(ks: Seq<Seq<char>>, sizes: Map<Seq<char>, usize>, k: Seq<char>)
    ensures
        total_size(without_first(ks, k), sizes) <= total_size(ks, sizes),
{
    lemma_first_index(ks, k);
    let i = first_index(ks, k);
    if i >= 0 {
        lemma_total_size_remove(ks, sizes, i);
    }
}

/// The memory limit holds after an insertion under both limits whenever
/// the new value fits in the limit by itself; a value that does not fit
/// leaves the cache as it was, so a cache within the limit stays within it.
pub proof fn law_insert_respects_memory<R>(
    m: Map<Seq<char>, CacheEntry<R>>,
    ks: Seq<Seq<char>>,
    config: CacheConfig,
    k: Seq<char>,
    e: CacheEntry<R>,
    sizes: Map<Seq<char>, usize>,
)
    requires
        consistent(m, ks),
        config.max_memory is Some,
        size_of_key(sizes, k) > config.max_memory->0 ==> total_size(ks, sizes)
            <= config.max_memory->0,
    ensures
        total_size(after_insert_sized(m, ks, config, k, e, sizes).1, sizes) <= config.max_memory->0,
        consistent(
            after_insert_sized(m, ks, config, k, e, sizes).0,
            after_insert_sized(m, ks, config, k, e, sizes).1,
        ),
{
    let max_mem = config.max_memory->0;
    let sk = size_of_key(sizes, k);
    if sk <= max_mem {
        let budget = (max_mem - sk) as usize;
        lemma_evicted_consistent(m, ks, k);
        let m0 = m.remove(k);
        let ks0 = without_first(ks, k);
        law_memory_eviction_reaches_limit(m0, ks0, sizes, config.policy, budget);
        lemma_after_memory_shrinks(m0, ks0, sizes, config.policy, budget);
        let t = after_memory(m0, ks0, sizes, config.policy, budget);
        lemma_after_limit_consistent(t.0, t.1, config.limit, config.policy);
        let u = after_limit(t.0, t.1, config.limit, config.policy);
        if let Some(l) = config.limit {
            if t.1.len() >= l {
                if let Some(v) = victim(t.0, t.1, config.policy) {
                    lemma_total_size_without_first(t.1, sizes, v);
                }
            }
        }
        assert(total_size(u.1, sizes) <= total_size(t.1, sizes));
        lemma_total_size_push(u.1, sizes, k);
        assert(!m0.contains_key(k));
        assert(!t.0.contains_key(k));
        assert(!u.0.contains_key(k));
        lemma_placed_consistent(u.0, u.1, k, e);
    }
}

/// A read hit under LRU or ARC makes the key the most recent one and keeps
/// the same keys.
pub proof fn law_read_hit_moves_to_back<R>(
    m: Map<Seq<char>, CacheEntry<R>>,
    ks: Seq<Seq<char>>,
    config: CacheConfig,
    k: Seq<char>,
    age_secs: u64,
)
    requires
        consistent(m, ks),
        m.contains_key(k),
        !spec_ttl_exceeded(age_secs, config.ttl),
        config.policy == EvictionPolicy::LRU || config.policy == EvictionPolicy::ARC,
    ensures
        after_get(m, ks, config, k, age_secs).1.last() == k,
        after_get(m, ks, config, k, age_secs).1.len() == ks.len(),
        after_get(m, ks, config, k, age_secs).0.dom() == m.dom(),
{
    law_moved_to_end(ks, k);
    if config.policy == EvictionPolicy::ARC {
        assert(m.insert(k, bumped(m[k])).dom() =~= m.dom());
    }
}

/// A read under FIFO changes nothing but may drop an expired entry.
pub proof fn law_fifo_read_keeps_order<R>(
    m: Map<Seq<char>, CacheEntry<R>>,
    ks: Seq<Seq<char>>,
    config: CacheConfig,
    k: Seq<char>,
    age_secs: u64,
)
    requires
        config.policy == EvictionPolicy::FIFO,
        !spec_ttl_exceeded(age_secs, config.ttl),
    ensures
        after_get(m, ks, config, k, age_secs) == (m, ks),
{
}

/// A read of an expired entry drops it: the key is gone from both the map
/// and the queue.
pub proof fn law_expired_read_drops_entry<R>(
    m: Map<Seq<char>, CacheEntry<R>>,
    ks: Seq<Seq<char>>,
    config: CacheConfig,
    k: Seq<char>,
    age_secs: u64,
)
    requires
        consistent(m, ks),
        spec_ttl_exceeded(age_secs, config.ttl),
    ensures
        !after_get(m, ks, config, k, age_secs).0.contains_key(k),
        !after_get(m, ks, config, k, age_secs).1.contains(k),
{
    lemma_without_first(ks, k);
}

/// A removed key reads as missing and the read changes nothing, whatever
/// its age and the policy.
pub proof fn law_removed_key_reads_as_missing<R: Clone>(
    m: Map<Seq<char>, CacheEntry<R>>,
    ks: Seq<Seq<char>>,
    config: CacheConfig,
    k: Seq<char>,
    age_secs: u64,
    r: Option<R>,
)
    requires
        read_result(m.remove(k), config.ttl, k, age_secs, r),
    ensures
        r is None,
        after_get(m.remove(k), without_first(ks, k), config, k, age_secs) == (
            m.remove(k),
            without_first(ks, k),
        ),
{
}

/// A live read hit counts one access under LFU and ARC: the entry's count
/// goes up by one, staying at `u64::MAX` once there, and its value and
/// insertion time stay. Under FIFO and LRU the count stays. No other entry
/// changes.
pub proof fn law_read_hit_counts_access<R>(
    m: Map<Seq<char>, CacheEntry<R>>,
    ks: Seq<Seq<char>>,
    config: CacheConfig,
    k: Seq<char>,
    age_secs: u64,
)
    requires
        m.contains_key(k),
        !spec_ttl_exceeded(age_secs, config.ttl),
    ensures
        after_get(m, ks, config, k, age_secs).0.contains_key(k),
        after_get(m, ks, config, k, age_secs).0[k].value == m[k].value,
        after_get(m, ks, config, k, age_secs).0[k].inserted_at == m[k].inserted_at,
        (config.policy == EvictionPolicy::LFU || config.policy == EvictionPolicy::ARC) && m[k].frequency
            < u64::MAX ==> after_get(m, ks, config, k, age_secs).0[k].frequency == m[k].frequency + 1,
        (config.policy == EvictionPolicy::LFU || config.policy == EvictionPolicy::ARC) && m[k].frequency
            == u64::MAX ==> after_get(m, ks, config, k, age_secs).0[k].frequency == u64::MAX,
        (config.policy == EvictionPolicy::FIFO || config.policy == EvictionPolicy::LRU) ==> after_get(
            m,
            ks,
            config,
            k,
            age_secs,
        ).0[k].frequency == m[k].frequency,
        forall|x: Seq<char>|
            x != k ==> (#[trigger] after_get(m, ks, config, k, age_secs).0.contains_key(x)
                == m.contains_key(x)) && (m.contains_key(x) ==> after_get(
                m,
                ks,
                config,
                k,
                age_secs,
            ).0[x] == m[x]),
{
}

/// Under LFU the victim of a queue has an access count no larger than that
/// of any key present in the map.
proof fn lemma_lfu_victim_least<R>(m: Map<Seq<char>, CacheEntry<R>>, ks: Seq<Seq<char>>, y: Seq<char>)
    requires
        consistent(m, ks),
        m.contains_key(y),
        victim(m, ks, EvictionPolicy::LFU) is Some,
    ensures
        m[victim(m, ks, EvictionPolicy::LFU)->0].frequency <= m[y].frequency,
{
    law_min_frequency_key_is_least(m, ks);
    assert(ks.contains(y));
    let j = choose|j: int| 0 <= j < ks.len() && ks[j] == y;
    assert(m.contains_key(ks[j]));
}

/// Under LFU, evicting for memory only takes out entries whose access
/// count is no larger than that of any entry that stays.
proof fn lemma_lfu_memory_evicts_least<R>(
    m: Map<Seq<char>, CacheEntry<R>>,
    ks: Seq<Seq<char>>,
    sizes: Map<Seq<char>, usize>,
    max_mem: usize,
)
    requires
        consistent(m, ks),
    ensures
        forall|x: Seq<char>, y: Seq<char>|
            #![trigger m[x], after_memory(m, ks, sizes, EvictionPolicy::LFU, max_mem).0.contains_key(y)]
            m.contains_key(x) && !after_memory(m, ks, sizes, EvictionPolicy::LFU, max_mem).0.contains_key(x)
                && after_memory(m, ks, sizes, EvictionPolicy::LFU, max_mem).0.contains_key(y)
                ==> m[x].frequency <= m[y].frequency,
    decreases ks.len(),
{
    let policy = EvictionPolicy::LFU;
    let res = after_memory(m, ks, sizes, policy, max_mem);
    if total_size(ks, sizes) > max_mem {
        lemma_victim_found(m, ks, policy);
        assert(ks.len() > 0);
        let v = victim(m, ks, policy)->0;
        lemma_first_index(ks, v);
        lemma_evicted_consistent(m, ks, v);
        lemma_without_first(ks, v);
        let m1 = m.remove(v);
        let ks1 = without_first(ks, v);
        lemma_lfu_memory_evicts_least(m1, ks1, sizes, max_mem);
        lemma_after_memory_shrinks(m1, ks1, sizes, policy, max_mem);
        assert(res == after_memory(m1, ks1, sizes, policy, max_mem));
        assert forall|x: Seq<char>, y: Seq<char>|
            m.contains_key(x) && !res.0.contains_key(x) && res.0.contains_key(y) implies m[x].frequency
            <= m[y].frequency by {
            assert(m1.contains_key(y));
            assert(m.contains_key(y));
            if x == v {
                lemma_lfu_victim_least(m, ks, y);
            } else {
                assert(m1.contains_key(x));
                assert(m1[x] == m[x]);
                assert(m1[y] == m[y]);
            }
        }
    } else {
        assert(res == (m, ks));
    }
}

/// Under LFU an insertion, under the entry-count limit and the memory limit
/// alike, evicts only entries whose access count is no larger than that of
/// any entry that stays: the least used entries go first.
pub proof fn law_lfu_insert_evicts_least_used<R>(
    m: Map<Seq<char>, CacheEntry<R>>,
    ks: Seq<Seq<char>>,
    config: CacheConfig,
    k: Seq<char>,
    e: CacheEntry<R>,
    sizes: Map<Seq<char>, usize>,
)
    requires
        consistent(m, ks),
        config.policy == EvictionPolicy::LFU,
    ensures
        forall|x: Seq<char>, y: Seq<char>|
            #![trigger m[x], after_insert_sized(m, ks, config, k, e, sizes).0.contains_key(y)]
            m.contains_key(x) && x != k && !after_insert_sized(m, ks, config, k, e, sizes).0.contains_key(x)
                && after_insert_sized(m, ks, config, k, e, sizes).0.contains_key(y) && y != k
                ==> m[x].frequency <= m[y].frequency,
{
    let res = after_insert_sized(m, ks, config, k, e, sizes);
    lemma_evicted_consistent(m, ks, k);
    let m0 = m.remove(k);
    let ks0 = without_first(ks, k);
    let over = match config.max_memory {
        Some(mm) => size_of_key(sizes, k) > mm,
        None => false,
    };
    if !over {
        let t = match config.max_memory {
            Some(mm) => after_memory(m0, ks0, sizes, config.policy, (mm - size_of_key(sizes, k)) as usize),
            None => (m0, ks0),
        };
        if let Some(mm) = config.max_memory {
            let bud = (mm - size_of_key(sizes, k)) as usize;
            lemma_lfu_memory_evicts_least(m0, ks0, sizes, bud);
            lemma_after_memory_shrinks(m0, ks0, sizes, config.policy, bud);
            law_memory_eviction_reaches_limit(m0, ks0, sizes, config.policy, bud);
        }
        assert(consistent(t.0, t.1));
        assert(forall|x: Seq<char>| #[trigger] t.0.contains_key(x) ==> m0.contains_key(x) && t.0[x] == m0[x]);
        lemma_after_limit_consistent(t.0, t.1, config.limit, config.policy);
        let u = after_limit(t.0, t.1, config.limit, config.policy);
        assert(res == placed(u.0, u.1, k, e));
        assert forall|x: Seq<char>, y: Seq<char>|
            m.contains_key(x) && x != k && !res.0.contains_key(x) && res.0.contains_key(y) && y != k
            implies m[x].frequency <= m[y].frequency by {
            assert(u.0.contains_key(y));
            assert(t.0.contains_key(y));
            assert(m0.contains_key(x));
            if t.0.contains_key(x) {
                // evicted by the entry-count step: it is that step's victim
                assert(u.0 == t.0.remove(victim(t.0, t.1, config.policy)->0));
                let v = victim(t.0, t.1, config.policy)->0;
                assert(x == v);
                lemma_lfu_victim_least(t.0, t.1, y);
            } else {
                // evicted for memory
                let mm = config.max_memory->0;
                let bud = (mm - size_of_key(sizes, k)) as usize;
                assert(t == after_memory(m0, ks0, sizes, EvictionPolicy::LFU, bud));
                assert(m0[x].frequency <= m0[y].frequency);
                assert(m0[x] == m[x] && m0[y] == m[y]);
            }
        }
    } else {
        assert(res == (m, ks));
    }
}

/// The frontmost key of least ARC product is the ARC victim.
proof fn lemma_arc_victim_is_first_least<R>(m: Map<Seq<char>, CacheEntry<R>>, ks: Seq<Seq<char>>, i: int)
    requires
        consistent(m, ks),
        0 <= i < ks.len(),
        forall|j: int|
            0 <= j < ks.len() ==> (m[ks[i]].frequency as int) * (ks.len() - i) <= (m[#[trigger] ks[j]].frequency
                as int) * (ks.len() - j),
        forall|j: int|
            0 <= j < i ==> (m[ks[i]].frequency as int) * (ks.len() - i) < (m[#[trigger] ks[j]].frequency as int)
                * (ks.len() - j),
    ensures
        arc_eviction_key(m, ks) == Some(ks[i]),
{
    assert(ks.contains(ks[i]));
    lemma_victim_found(m, ks, EvictionPolicy::ARC);
    law_arc_victim_minimizes_product(m, ks);
    let v = arc_eviction_key(m, ks)->0;
    let i0 = choose|i0: int|
        #![trigger ks[i0]]
        0 <= i0 < ks.len() && ks[i0] == v && m.contains_key(v) && (forall|j: int|
            0 <= j < ks.len() && m.contains_key(ks[j]) ==> (m[v].frequency as int) * (ks.len() - i0) <= (
            m[ks[j]].frequency as int) * (ks.len() - j)) && (forall|j: int|
            0 <= j < i0 && m.contains_key(ks[j]) ==> (m[v].frequency as int) * (ks.len() - i0) < (
            m[ks[j]].frequency as int) * (ks.len() - j));
    assert(ks.contains(ks[i0]));
    assert(m.contains_key(ks[i]));
    if i0 < i {
        assert((m[ks[i]].frequency as int) * (ks.len() - i) < (m[ks[i0]].frequency as int) * (ks.len() - i0));
    } else if i < i0 {
        assert((m[ks[i]].frequency as int) * (ks.len() - i) <= (m[ks[i0]].frequency as int) * (ks.len() - i0));
    }
}

/// Under ARC, when an insertion has to make room in memory, the entry whose
/// access count times its distance from the back of the queue is least
/// (the frontmost such entry on a tie) is among those evicted. The queue
/// here is the one left once any previous entry under the inserted key is
/// set aside, and key `i` of it is that least entry.
pub proof fn law_arc_memory_evicts_least_score<R>(
    m: Map<Seq<char>, CacheEntry<R>>,
    ks: Seq<Seq<char>>,
    config: CacheConfig,
    k: Seq<char>,
    e: CacheEntry<R>,
    sizes: Map<Seq<char>, usize>,
    i: int,
)
    requires
        consistent(m, ks),
        config.policy == EvictionPolicy::ARC,
        config.max_memory is Some,
        size_of_key(sizes, k) <= config.max_memory->0,
        total_size(without_first(ks, k), sizes) + size_of_key(sizes, k) > config.max_memory->0,
        0 <= i < without_first(ks, k).len(),
        forall|j: int|
            0 <= j < without_first(ks, k).len() ==> (m[without_first(ks, k)[i]].frequency as int) * (
            without_first(ks, k).len() - i) <= (m[#[trigger] without_first(ks, k)[j]].frequency as int) * (
            without_first(ks, k).len() - j),
        forall|j: int|
            0 <= j < i ==> (m[without_first(ks, k)[i]].frequency as int) * (without_first(ks, k).len() - i)
                < (m[#[trigger] without_first(ks, k)[j]].frequency as int) * (without_first(ks, k).len() - j),
    ensures
        !after_insert_sized(m, ks, config, k, e, sizes).0.contains_key(without_first(ks, k)[i]),
{
    let mm = config.max_memory->0;
    let bud = (mm - size_of_key(sizes, k)) as usize;
    lemma_evicted_consistent(m, ks, k);
    lemma_without_first(ks, k);
    let m0 = m.remove(k);
    let ks0 = without_first(ks, k);
    let n = ks0.len();
    assert forall|j: int| 0 <= j < n implies #[trigger] m0[ks0[j]] == m[ks0[j]] by {
        assert(ks0.contains(ks0[j]));
    }
    assert(m0[ks0[i]] == m[ks0[i]]);
    assert forall|j: int| 0 <= j < n implies (m0[ks0[i]].frequency as int) * (n - i) <= (
    m0[#[trigger] ks0[j]].frequency as int) * (n - j) by {
        assert(m0[ks0[j]] == m[ks0[j]]);
    }
    assert forall|j: int| 0 <= j < i implies (m0[ks0[i]].frequency as int) * (n - i) < (
    m0[#[trigger] ks0[j]].frequency as int) * (n - j) by {
        assert(m0[ks0[j]] == m[ks0[j]]);
    }
    lemma_arc_victim_is_first_least(m0, ks0, i);
    let v = ks0[i];
    assert(ks0.contains(v));
    assert(v != k);
    lemma_first_index(ks0, v);
    let t = after_memory(m0, ks0, sizes, EvictionPolicy::ARC, bud);
    assert(t == after_memory(m0.remove(v), without_first(ks0, v), sizes, EvictionPolicy::ARC, bud));
    lemma_after_memory_shrinks(m0.remove(v), without_first(ks0, v), sizes, EvictionPolicy::ARC, bud);
    assert(!t.0.contains_key(v));
    let u = after_limit(t.0, t.1, config.limit, config.policy);
    assert(!u.0.contains_key(v));
    assert(after_insert_sized(m, ks, config, k, e, sizes) == placed(u.0, u.1, k, e));
}

/// Under FIFO and LRU a queue loses keys only at its front: dropping the
/// victim drops the first key.
proof fn lemma_queue_victim_is_front<R>(m: Map<Seq<char>, CacheEntry<R>>, ks: Seq<Seq<char>>, policy: EvictionPolicy)
    requires
        consistent(m, ks),
        policy == EvictionPolicy::FIFO || policy == EvictionPolicy::LRU,
        ks.len() > 0,
    ensures
        victim(m, ks, policy) == Some(ks[0]),
        without_first(ks, ks[0]) == ks.subrange(1, ks.len() as int),
        consistent(m.remove(ks[0]), ks.subrange(1, ks.len() as int)),
{
    lemma_first_index(ks, ks[0]);
    assert(ks.contains(ks[0]));
    assert(ks.remove(0) =~= ks.subrange(1, ks.len() as int));
    lemma_evicted_consistent(m, ks, ks[0]);
}

/// Under FIFO and LRU, evicting for memory leaves a back part of the queue.
proof fn lemma_queue_memory_suffix<R>(
    m: Map<Seq<char>, CacheEntry<R>>,
    ks: Seq<Seq<char>>,
    sizes: Map<Seq<char>, usize>,
    policy: EvictionPolicy,
    max_mem: usize,
) -> (n: int)
    requires
        consistent(m, ks),
        policy == EvictionPolicy::FIFO || policy == EvictionPolicy::LRU,
    ensures
        0 <= n <= ks.len(),
        after_memory(m, ks, sizes, policy, max_mem).1 == ks.subrange(n, ks.len() as int),
        consistent(after_memory(m, ks, sizes, policy, max_mem).0, after_memory(m, ks, sizes, policy, max_mem).1),
    decreases ks.len(),
{
    if total_size(ks, sizes) > max_mem && ks.len() > 0 {
        lemma_queue_victim_is_front(m, ks, policy);
        let v = ks[0];
        assert(ks.contains(v));
        let w = ks.subrange(1, ks.len() as int);
        let n1 = lemma_queue_memory_suffix(m.remove(v), w, sizes, policy, max_mem);
        assert(after_memory(m, ks, sizes, policy, max_mem) == after_memory(m.remove(v), w, sizes, policy, max_mem));
        assert(w.subrange(n1, w.len() as int) =~= ks.subrange(n1 + 1, ks.len() as int));
        n1 + 1
    } else {
        if total_size(ks, sizes) > max_mem {
            lemma_victim_found(m, ks, policy);
        }
        assert(ks.subrange(0, ks.len() as int) =~= ks);
        0
    }
}

/// Under FIFO and LRU an insertion evicts from the front of the queue: with
/// any previous entry under the inserted key set aside, whenever a key of
/// the queue is evicted, every key in front of it is evicted too. The
/// oldest (FIFO) or least recently used (LRU) entries go first.
pub proof fn law_queue_policy_evicts_front<R>(
    m: Map<Seq<char>, CacheEntry<R>>,
    ks: Seq<Seq<char>>,
    config: CacheConfig,
    k: Seq<char>,
    e: CacheEntry<R>,
    sizes: Map<Seq<char>, usize>,
    i: int,
    j: int,
)
    requires
        consistent(m, ks),
        config.policy == EvictionPolicy::FIFO || config.policy == EvictionPolicy::LRU,
        0 <= i < j < without_first(ks, k).len(),
        !after_insert_sized(m, ks, config, k, e, sizes).0.contains_key(without_first(ks, k)[j]),
    ensures
        !after_insert_sized(m, ks, config, k, e, sizes).0.contains_key(without_first(ks, k)[i]),
{
    let res = after_insert_sized(m, ks, config, k, e, sizes);
    lemma_evicted_consistent(m, ks, k);
    lemma_without_first(ks, k);
    let m0 = m.remove(k);
    let ks0 = without_first(ks, k);
    let len = ks0.len() as int;
    assert(ks0.contains(ks0[i]) && ks0.contains(ks0[j]));
    let over = match config.max_memory {
        Some(mm) => size_of_key(sizes, k) > mm,
        None => false,
    };
    if over {
        assert(res == (m, ks));
        assert(m0.contains_key(ks0[j]));
        assert(false);
    } else {
        let n: int = match config.max_memory {
            Some(mm) => lemma_queue_memory_suffix(m0, ks0, sizes, config.policy, (mm - size_of_key(sizes, k)) as usize),
            None => {
                assert(ks0.subrange(0, len) =~= ks0);
                0
            },
        };
        let t = match config.max_memory {
            Some(mm) => after_memory(m0, ks0, sizes, config.policy, (mm - size_of_key(sizes, k)) as usize),
            None => (m0, ks0),
        };
        assert(t.1 == ks0.subrange(n, len));
        assert(consistent(t.0, t.1));
        let u = after_limit(t.0, t.1, config.limit, config.policy);
        let n2: int = if config.limit matches Some(l) && t.1.len() >= l && t.1.len() > 0 {
            lemma_queue_victim_is_front(t.0, t.1, config.policy);
            assert(u.1 == t.1.subrange(1, t.1.len() as int));
            assert(t.1.subrange(1, t.1.len() as int) =~= ks0.subrange(n + 1, len));
            n + 1
        } else {
            if config.limit matches Some(l) && t.1.len() >= l {
                lemma_victim_found(t.0, t.1, config.policy);
            }
            assert(u == t);
            n
        };
        assert(u.1 =~= ks0.subrange(n2, len));
        lemma_after_limit_consistent(t.0, t.1, config.limit, config.policy);
        assert(res == placed(u.0, u.1, k, e));
        assert(ks0[j] != k && ks0[i] != k);
        assert(!u.0.contains_key(ks0[j]));
        if j >= n2 {
            assert(u.1[j - n2] == ks0[j]);
            assert(u.1.contains(ks0[j]));
        }
        if u.1.contains(ks0[i]) {
            let p = choose|p: int| 0 <= p < u.1.len() && u.1[p] == ks0[i];
            assert(ks0[p + n2] == ks0[i]);
            assert(p + n2 == i);
        }
    }
}

} // verus!

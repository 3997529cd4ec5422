use std::collections::VecDeque;
use vstd::prelude::*;
use vstd::string::StringExecFns;

use crate::cache_entry::CacheEntry;
use crate::str_map::StrMap;
use crate::text::str_eq;

verus! {

broadcast use vstd::std_specs::vecdeque::group_vec_dequeue_axioms;

/// The map from cache keys to their entries.
pub type CacheMap<R> = StrMap<CacheEntry<R>>;

/// The characters of each key of an order queue, front first.
pub open spec fn keys_view(order: Seq<String>) -> Seq<Seq<char>> {
    order.map_values(|s: String| s@)
}

/// Position of the first occurrence of `k` in `ks`, or -1 when absent.
pub open spec fn first_index(ks: Seq<Seq<char>>, k: Seq<char>) -> int
    decreases ks.len(),
{
    if ks.len() == 0 {
        -1
    } else if ks[0] == k {
        0
    } else {
        let r = first_index(ks.drop_first(), k);
        if r < 0 {
            -1
        } else {
            r + 1
        }
    }
}

/// `first_index` finds the first occurrence, and reports -1 exactly when the
/// key does not occur.
pub proof fn lemma_first_index(ks: Seq<Seq<char>>, k: Seq<char>)
    ensures
        -1 <= first_index(ks, k) < ks.len(),
        first_index(ks, k) >= 0 ==> ks[first_index(ks, k)] == k,
        first_index(ks, k) >= 0 ==> forall|j: int| 0 <= j < first_index(ks, k) ==> ks[j] != k,
        first_index(ks, k) < 0 <==> !ks.contains(k),
    decreases ks.len(),
{
    if ks.len() > 0 && ks[0] != k {
        lemma_first_index(ks.drop_first(), k);
        let r = first_index(ks.drop_first(), k);
        if r >= 0 {
            assert forall|j: int| 0 <= j < r + 1 implies ks[j] != k by {
                if j > 0 {
                    assert(ks[j] == ks.drop_first()[j - 1]);
                }
            }
        } else {
            if ks.contains(k) {
                let j = choose|j: int| 0 <= j < ks.len() && ks[j] == k;
                assert(ks.drop_first()[j - 1] == k);
            }
        }
    } else if ks.len() > 0 {
        assert(ks.contains(k)) by {
            assert(ks[0] == k);
        }
    }
}

/// The order queue after `key` is marked as most recently used: its first
/// occurrence is taken out and the key is appended at the back; a key that
/// does not occur leaves the queue as it was.
pub open spec fn moved_to_end(ks: Seq<Seq<char>>, k: Seq<char>) -> Seq<Seq<char>> {
    let i = first_index(ks, k);
    if i < 0 {
        ks
    } else {
        ks.remove(i).push(k)
    }
}

/// The order queue with the first occurrence of `k` taken out.
pub open spec fn without_first(ks: Seq<Seq<char>>, k: Seq<char>) -> Seq<Seq<char>> {
    let i = first_index(ks, k);
    if i < 0 {
        ks
    } else {
        ks.remove(i)
    }
}

/// Scans an order queue front to back for the present key of least access
/// count, keeping the earliest one on ties. There is one whenever some key
/// of the queue is present.
pub open spec fn min_frequency_key<R>(m: Map<Seq<char>, CacheEntry<R>>, ks: Seq<Seq<char>>) -> Option<
    Seq<char>,
>
    decreases ks.len(),
{
    if ks.len() == 0 {
        None
    } else {
        let prev = min_frequency_key(m, ks.drop_last());
        let k = ks.last();
        if m.contains_key(k) && (prev is None || m[k].frequency < m[prev->0].frequency) {
            Some(k)
        } else {
            prev
        }
    }
}

/// The ARC score of the key at position `i` of a queue of `len` keys:
/// its access count times its distance from the back (the front weighs most).
pub open spec fn arc_score(frequency: u64, len: int, i: int) -> int {
    frequency * (len - i)
}

/// Scans the first `t` keys of an order queue for the present key of least
/// ARC score, keeping the earliest one on ties; the result carries the key
/// and its score.
pub open spec fn arc_scan<R>(m: Map<Seq<char>, CacheEntry<R>>, ks: Seq<Seq<char>>, t: int) -> Option<
    (Seq<char>, int),
>
    decreases t,
{
    if t <= 0 {
        None
    } else {
        let prev = arc_scan(m, ks, t - 1);
        let k = ks[t - 1];
        if m.contains_key(k) {
            let score = arc_score(m[k].frequency, ks.len() as int, t - 1);
            match prev {
                Some(p) => if score < p.1 {
                    Some((k, score))
                } else {
                    prev
                },
                None => Some((k, score)),
            }
        } else {
            prev
        }
    }
}

/// The key that the ARC rule evicts from the order queue `ks`.
pub open spec fn arc_eviction_key<R>(m: Map<Seq<char>, CacheEntry<R>>, ks: Seq<Seq<char>>) -> Option<
    Seq<char>,
> {
    match arc_scan(m, ks, ks.len() as int) {
        Some(p) => Some(p.0),
        None => None,
    }
}

/// Position of the first occurrence of `key` in `order`.
fn position_of(order: &VecDeque<String>, key: &str) -> (r: Option<usize>)
    ensures
        match r {
            Some(i) => i as int == first_index(keys_view(order@), key@),
            None => first_index(keys_view(order@), key@) < 0,
        },
{
    proof {
        lemma_first_index(keys_view(order@), key@);
    }
    let mut i: usize = 0;
    while i < order.len()
        invariant
            0 <= i <= order@.len(),
            forall|j: int| 0 <= j < i ==> order@[j]@ != key@,
            -1 <= first_index(keys_view(order@), key@) < order@.len(),
            first_index(keys_view(order@), key@) >= 0 ==> keys_view(order@)[first_index(
                keys_view(order@),
                key@,
            )] == key@,
            first_index(keys_view(order@), key@) >= 0 ==> forall|j: int|
                0 <= j < first_index(keys_view(order@), key@) ==> keys_view(order@)[j] != key@,
            first_index(keys_view(order@), key@) < 0 <==> !keys_view(order@).contains(key@),
        decreases order@.len() - i,
    {
        if str_eq(order[i].as_str(), key) {
            proof {
                let f = first_index(keys_view(order@), key@);
                assert(keys_view(order@)[i as int] == key@);
                assert(keys_view(order@).contains(key@));
                if f > i {
                    assert(keys_view(order@)[i as int] != key@);
                }
            }
            return Some(i);
        }
        i = i + 1;
    }
    proof {
        let ks = keys_view(order@);
        if ks.contains(key@) {
            let j = choose|j: int| 0 <= j < ks.len() && ks[j] == key@;
            assert(order@[j]@ == key@);
        }
    }
    None
}

/// Marks `key` as most recently used: its first occurrence in `order` is
/// moved to the back. A key that does not occur leaves `order` unchanged.
pub fn move_key_to_end(order: &mut VecDeque<String>, key: &str)
    ensures
        keys_view(final(order)@) == moved_to_end(keys_view(old(order)@), key@),
        first_index(keys_view(old(order)@), key@) < 0 ==> final(order)@ == old(order)@,
{
    proof {
        lemma_first_index(keys_view(order@), key@);
    }
    match position_of(order, key) {
        Some(pos) => {
            let ghost before = order@;
            order.remove(pos);
            let ghost mid = order@;
            assert(mid == before.remove(pos as int));
            order.push_back(String::from_str(key));
            proof {
                let lhs = keys_view(order@);
                let rhs = keys_view(before).remove(pos as int).push(key@);
                assert(lhs.len() == rhs.len());
                assert forall|j: int| 0 <= j < lhs.len() implies lhs[j] == rhs[j] by {
                    if j < pos {
                        assert(order@[j] == before[j]);
                    } else if j < lhs.len() - 1 {
                        assert(order@[j] == before[j + 1]);
                    }
                }
                assert(lhs =~= rhs);
            }
        },
        None => {},
    }
}

/// Finds the key of least access count among the keys of `order` that are
/// present in `map`; on ties the one nearest the front wins. Keys of `order`
/// missing from `map` are skipped; there is a key whenever one of `order`
/// is present in `map`.
pub fn find_min_frequency_key<R>(map: &CacheMap<R>, order: &VecDeque<String>) -> (r: Option<String>)
    ensures
        match r {
            Some(k) => min_frequency_key(map@, keys_view(order@)) == Some(k@),
            None => min_frequency_key(map@, keys_view(order@)) is None,
        },
{
    let mut best: Option<String> = None;
    let mut min_freq: u64 = u64::MAX;
    let mut i: usize = 0;
    while i < order.len()
        invariant
            0 <= i <= order@.len(),
            match min_frequency_key(map@, keys_view(order@).take(i as int)) {
                Some(k) => best is Some && best->0@ == k && min_freq == map@[k].frequency,
                None => best is None,
            },
        decreases order@.len() - i,
    {
        proof {
            let ks = keys_view(order@);
            assert(ks.take(i + 1).drop_last() =~= ks.take(i as int));
            assert(ks.take(i + 1).last() == order@[i as int]@);
        }
        match map.get(order[i].as_str()) {
            Some(entry) => {
                if best.is_none() || entry.frequency < min_freq {
                    min_freq = entry.frequency;
                    best = Some(order[i].clone());
                }
            },
            None => {},
        }
        i = i + 1;
    }
    assert(keys_view(order@).take(order@.len() as int) =~= keys_view(order@));
    best
}

/// Takes `key` out of both `map` and the first place it holds in `order`;
/// reports, for each of the two, whether it was there.
fn remove_from_maps<R>(map: &mut CacheMap<R>, order: &mut VecDeque<String>, key: &str) -> (r: (
    bool,
    bool,
))
    ensures
        final(map)@ == old(map)@.remove(key@),
        keys_view(final(order)@) == without_first(keys_view(old(order)@), key@),
        r.0 == old(map)@.contains_key(key@),
        r.1 == keys_view(old(order)@).contains(key@),
{
    proof {
        lemma_first_index(keys_view(order@), key@);
    }
    let removed_from_map = map.remove(key).is_some();
    let removed_from_order = remove_position(order, key);
    (removed_from_map, removed_from_order)
}

/// Takes `key` out of `map` and out of the first place it holds in `order`.
/// Returns whether it was found in at least one of them.
pub fn remove_key_from_cache_local<R>(
    map: &mut CacheMap<R>,
    order: &mut VecDeque<String>,
    key: &str,
) -> (r: bool)
    ensures
        final(map)@ == old(map)@.remove(key@),
        keys_view(final(order)@) == without_first(keys_view(old(order)@), key@),
        r == (old(map)@.contains_key(key@) || keys_view(old(order)@).contains(key@)),
{
    let (removed_from_map, removed_from_order) = remove_from_maps(map, order, key);
    removed_from_map || removed_from_order
}

/// Finds the key to evict under the ARC rule: among the keys of `order` that
/// are present in `map`, the one whose access count times its distance from
/// the back of `order` is least; on ties the one nearest the front wins.
pub fn find_arc_eviction_key<R>(map: &CacheMap<R>, order: &VecDeque<String>) -> (r: Option<String>)
    ensures
        match r {
            Some(k) => arc_eviction_key(map@, keys_view(order@)) == Some(k@),
            None => arc_eviction_key(map@, keys_view(order@)) is None,
        },
{
    let total_len = order.len();
    let mut best: Option<String> = None;
    let mut best_score: u128 = 0;
    let mut i: usize = 0;
    while i < total_len
        invariant
            total_len == order@.len(),
            0 <= i <= total_len,
            match arc_scan(map@, keys_view(order@), i as int) {
                Some(p) => best is Some && best->0@ == p.0 && best_score == p.1,
                None => best is None,
            },
        decreases total_len - i,
    {
        match map.get(order[i].as_str()) {
            Some(entry) => {
                let weight = (total_len - i) as u128;
                assert(entry.frequency as u128 * weight <= u64::MAX as u128 * u64::MAX as u128)
                    by (nonlinear_arith)
                    requires
                        weight <= u64::MAX,
                ;
                let score: u128 = (entry.frequency as u128) * weight;
                match best {
                    Some(_) => {
                        if score < best_score {
                            best_score = score;
                            best = Some(order[i].clone());
                        }
                    },
                    None => {
                        best_score = score;
                        best = Some(order[i].clone());
                    },
                }
            },
            None => {},
        }
        i = i + 1;
    }
    best
}

/// Takes the first occurrence of `key` out of `order`, if any, and reports
/// whether there was one.
pub(crate) fn remove_position(order: &mut VecDeque<String>, key: &str) -> (r: bool)
    ensures
        keys_view(final(order)@) == without_first(keys_view(old(order)@), key@),
        r == keys_view(old(order)@).contains(key@),
{
    proof {
        lemma_first_index(keys_view(order@), key@);
    }
    match position_of(order, key) {
        Some(pos) => {
            let ghost before = order@;
            order.remove(pos);
            proof {
                let lhs = keys_view(order@);
                let rhs = keys_view(before).remove(pos as int);
                assert forall|j: int| 0 <= j < lhs.len() implies lhs[j] == rhs[j] by {
                    if j < pos {
                        assert(order@[j] == before[j]);
                    } else {
                        assert(order@[j] == before[j + 1]);
                    }
                }
                assert(lhs =~= rhs);
            }
            true
        },
        None => false,
    }
}

/// The key chosen by the least-access-count rule has the least count among
/// the present keys of the queue, and every present key in front of its
/// first occurrence has a larger count (ties go to the front). No key is
/// chosen only when no key of the queue is present.
pub proof fn law_min_frequency_key_is_least<R>(m: Map<Seq<char>, CacheEntry<R>>, ks: Seq<Seq<char>>)
    ensures
        min_frequency_key(m, ks) matches Some(k) ==> {
            &&& ks.contains(k)
            &&& m.contains_key(k)
            &&& forall|j: int|
                0 <= j < ks.len() && m.contains_key(ks[j]) ==> m[k].frequency <= m[ks[j]].frequency
            &&& forall|j: int|
                0 <= j < first_index(ks, k) && m.contains_key(ks[j]) ==> m[k].frequency
                    < m[ks[j]].frequency
        },
        min_frequency_key(m, ks) is None ==> forall|j: int|
            0 <= j < ks.len() ==> !m.contains_key(ks[j]),
    decreases ks.len(),
{
    if ks.len() > 0 {
        let pre = ks.drop_last();
        law_min_frequency_key_is_least(m, pre);
        let last = ks.last();
        let n = ks.len() - 1;
        assert(forall|j: int| 0 <= j < n ==> pre[j] == ks[j]);
        lemma_first_index(ks, last);
        match min_frequency_key(m, pre) {
            Some(p) => {
                lemma_first_index(ks, p);
                lemma_first_index(pre, p);
                let jp = choose|j: int| 0 <= j < pre.len() && pre[j] == p;
                assert(ks[jp] == p);
                if m.contains_key(last) && m[last].frequency < m[p].frequency {
                    assert forall|j: int| 0 <= j < first_index(ks, last) && m.contains_key(ks[j])
                        implies m[last].frequency < m[ks[j]].frequency by {
                        if j < n {
                            assert(pre[j] == ks[j]);
                        }
                    }
                } else {
                    assert(first_index(ks, p) == first_index(pre, p)) by {
                        lemma_first_index_prefix(ks, p);
                    }
                }
            },
            None => {
                if m.contains_key(last) {
                    assert forall|j: int| 0 <= j < first_index(ks, last) && m.contains_key(ks[j])
                        implies m[last].frequency < m[ks[j]].frequency by {
                        assert(pre[j] == ks[j]);
                    }
                    assert(ks.contains(last)) by {
                        assert(ks[n] == last);
                    }
                }
            },
        }
    }
}

/// A key that occurs before the last position keeps its first position
/// when the last element is dropped.
proof fn lemma_first_index_prefix(ks: Seq<Seq<char>>, k: Seq<char>)
    requires
        ks.len() > 0,
        ks.drop_last().contains(k),
    ensures
        first_index(ks, k) == first_index(ks.drop_last(), k),
{
    let pre = ks.drop_last();
    lemma_first_index(ks, k);
    lemma_first_index(pre, k);
    let a = first_index(ks, k);
    let b = first_index(pre, k);
    assert(pre[b] == k && ks[b] == k);
    assert(a <= b);
    if a < b {
        assert(pre[a] == ks[a]);
    }
}

/// The key chosen by the ARC rule has the least ARC score among the present
/// keys of the queue; present keys in front of it score higher. Some key is
/// chosen whenever some key of the queue is present.
pub proof fn law_arc_key_is_least<R>(m: Map<Seq<char>, CacheEntry<R>>, ks: Seq<Seq<char>>, t: int)
    requires
        0 <= t <= ks.len(),
    ensures
        arc_scan(m, ks, t) matches Some(p) ==> exists|i: int|
            0 <= i < t && ks[i] == p.0 && m.contains_key(p.0) && p.1 == arc_score(
                m[p.0].frequency,
                ks.len() as int,
                i,
            ) && (forall|j: int|
                0 <= j < t && m.contains_key(ks[j]) ==> p.1 <= arc_score(
                    m[ks[j]].frequency,
                    ks.len() as int,
                    j,
                )) && (forall|j: int|
                0 <= j < i && m.contains_key(ks[j]) ==> p.1 < arc_score(
                    m[ks[j]].frequency,
                    ks.len() as int,
                    j,
                )),
        arc_scan(m, ks, t) is None ==> forall|j: int| 0 <= j < t ==> !m.contains_key(ks[j]),
    decreases t,
{
    if t > 0 {
        law_arc_key_is_least(m, ks, t - 1);
    }
}

/// The ARC victim is a present key at some position `i` of the queue whose
/// access count times its distance from the back, `len - i`, is no larger
/// than that product for any present key, and strictly smaller than it for
/// every present key in front of position `i`. There is a victim whenever
/// some key of the queue is present.
pub proof fn law_arc_victim_minimizes_product<R>(m: Map<Seq<char>, CacheEntry<R>>, ks: Seq<Seq<char>>)
    ensures
        arc_eviction_key(m, ks) matches Some(v) ==> exists|i: int|
            #![trigger ks[i]]
            0 <= i < ks.len() && ks[i] == v && m.contains_key(v) && (forall|j: int|
                0 <= j < ks.len() && m.contains_key(ks[j]) ==> (m[v].frequency as int) * (ks.len()
                    - i) <= (m[ks[j]].frequency as int) * (ks.len() - j)) && (forall|j: int|
                0 <= j < i && m.contains_key(ks[j]) ==> (m[v].frequency as int) * (ks.len() - i)
                    < (m[ks[j]].frequency as int) * (ks.len() - j)),
        arc_eviction_key(m, ks) is None ==> forall|j: int| 0 <= j < ks.len() ==> !m.contains_key(ks[j]),
{
    law_arc_key_is_least(m, ks, ks.len() as int);
}

/// Moving a key of the queue to the back keeps the same keys, puts the key
/// last and keeps the length.
pub proof fn law_moved_to_end(ks: Seq<Seq<char>>, k: Seq<char>)
    requires
        ks.contains(k),
    ensures
        moved_to_end(ks, k).len() == ks.len(),
        moved_to_end(ks, k).last() == k,
        forall|x: Seq<char>| #[trigger] moved_to_end(ks, k).contains(x) <==> ks.contains(x),
{
    lemma_first_index(ks, k);
    let i = first_index(ks, k);
    let r = ks.remove(i);
    let p = r.push(k);
    assert forall|x: Seq<char>| #[trigger] p.contains(x) <==> ks.contains(x) by {
        if p.contains(x) {
            let j = choose|j: int| 0 <= j < p.len() && p[j] == x;
            if j == r.len() {
                assert(ks[i] == x);
            } else if j < i {
                assert(ks[j] == x);
            } else {
                assert(ks[j + 1] == x);
            }
        }
        if ks.contains(x) {
            let j = choose|j: int| 0 <= j < ks.len() && ks[j] == x;
            if j == i {
                assert(p[r.len() as int] == x);
            } else if j < i {
                assert(p[j] == x);
            } else {
                assert(p[j - 1] == x);
            }
        }
    }
}

} // verus!

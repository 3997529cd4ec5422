use vstd::prelude::*;

use crate::str_map::StrMap;
use crate::utils::keys_view;

verus! {

/// What a cache is invalidated by.
#[derive(Debug, Clone, PartialEq, Eq)]
pub enum InvalidationStrategy {
    /// Invalidate by tag.
    Tag(String),
    /// Invalidate by event.
    Event(String),
    /// Invalidate by dependency.
    Dependency(String),
}

/// The invalidation rules of a cache: its tags, the events that invalidate
/// it and the caches it depends on.
#[derive(Debug, Clone)]
pub struct InvalidationMetadata {
    /// Tags associated with the cache.
    pub tags: Vec<String>,
    /// Events that invalidate the cache.
    pub events: Vec<String>,
    /// Dependencies whose change invalidates the cache.
    pub dependencies: Vec<String>,
}

impl InvalidationMetadata {
    /// Metadata with the given tags, events and dependencies.
    pub fn new(tags: Vec<String>, events: Vec<String>, dependencies: Vec<String>) -> (r: Self)
        ensures
            r.tags == tags,
            r.events == events,
            r.dependencies == dependencies,
    {
        InvalidationMetadata { tags, events, dependencies }
    }

    /// Whether the metadata holds no rule at all.
    pub fn is_empty(&self) -> (r: bool)
        ensures
            r == (self.tags@.len() == 0 && self.events@.len() == 0 && self.dependencies@.len()
                == 0),
    {
        self.tags.len() == 0 && self.events.len() == 0 && self.dependencies.len() == 0
    }
}

/// The names held by a list of names, as a set of character sequences.
pub open spec fn name_set(names: Seq<String>) -> Set<Seq<char>> {
    keys_view(names).to_set()
}

/// No name occurs twice.
pub open spec fn names_distinct(names: Seq<String>) -> bool {
    forall|i: int, j: int|
        0 <= i < names.len() && 0 <= j < names.len() && i != j ==> #[trigger] names[i]@
            != #[trigger] names[j]@
}

/// The caches filed under each tag, event or dependency, as sets of names.
pub open spec fn index_sets(m: Map<Seq<char>, Vec<String>>) -> Map<Seq<char>, Set<Seq<char>>> {
    m.map_values(|v: Vec<String>| name_set(v@))
}

/// The caches filed under `key` in an index (none when the key is absent).
pub open spec fn filed_under(m: Map<Seq<char>, Vec<String>>, key: Seq<char>) -> Set<Seq<char>> {
    if m.contains_key(key) {
        name_set(m[key]@)
    } else {
        Set::empty()
    }
}

/// The index after `name` is filed under every key of `keys`.
pub open spec fn filed(
    m: Map<Seq<char>, Vec<String>>,
    keys: Seq<String>,
    name: Seq<char>,
    key: Seq<char>,
) -> Set<Seq<char>> {
    if keys_view(keys).contains(key) {
        filed_under(m, key).insert(name)
    } else {
        filed_under(m, key)
    }
}

/// Whether `names` holds `name`.
fn holds(names: &Vec<String>, name: &str) -> (r: bool)
    ensures
        r == name_set(names@).contains(name@),
{
    let mut i: usize = 0;
    while i < names.len()
        invariant
            0 <= i <= names@.len(),
            forall|j: int| 0 <= j < i ==> names@[j]@ != name@,
        decreases names@.len() - i,
    {
        if crate::text::str_eq(names[i].as_str(), name) {
            assert(keys_view(names@)[i as int] == name@);
            return true;
        }
        i = i + 1;
    }
    proof {
        if name_set(names@).contains(name@) {
            let j = choose|j: int|
                0 <= j < names@.len() && keys_view(names@)[j] == name@;
            assert(names@[j]@ == name@);
        }
    }
    false
}

/// Files `name` under `key` in an index, once.
fn file_name(index: &mut StrMap<Vec<String>>, key: &String, name: &str)
    requires
        forall|k: Seq<char>| #[trigger] old(index)@.contains_key(k) ==> names_distinct(old(index)@[k]@),
    ensures
        forall|k: Seq<char>| #[trigger] final(index)@.contains_key(k) ==> names_distinct(final(index)@[k]@),
        final(index)@.dom() == old(index)@.dom().insert(key@),
        forall|k: Seq<char>| #[trigger] filed_under(final(index)@, k) == if k == key@ {
            filed_under(old(index)@, k).insert(name@)
        } else {
            filed_under(old(index)@, k)
        },
{
    let mut names: Vec<String> = match index.remove(key.as_str()) {
        Some(v) => v,
        None => Vec::new(),
    };
    let ghost before = names@;
    assert(name_set(before) == filed_under(old(index)@, key@)) by {
        if !old(index)@.contains_key(key@) {
            assert(name_set(before) =~= Set::<Seq<char>>::empty());
        }
    }
    if !holds(&names, name) {
        names.push(name.to_string());
        proof {
            assert(keys_view(names@) =~= keys_view(before).push(
                name@,
            ));
            keys_view(before).lemma_push_to_set_commute(name@);
            assert forall|i: int, j: int|
                0 <= i < names@.len() && 0 <= j < names@.len() && i != j implies #[trigger] names@[i]@
                != #[trigger] names@[j]@ by {
                let n = before.len() as int;
                if i == n {
                    assert(keys_view(before)[j] == names@[j]@);
                } else if j == n {
                    assert(keys_view(before)[i] == names@[i]@);
                }
            }
        }
    } else {
        assert(name_set(names@).insert(name@) =~= name_set(names@));
    }
    index.insert(key.clone(), names);
    proof {
        assert forall|k: Seq<char>| #[trigger] filed_under(index@, k) == if k == key@ {
            filed_under(old(index)@, k).insert(name@)
        } else {
            filed_under(old(index)@, k)
        } by {}
        assert(index@.dom() =~= old(index)@.dom().insert(key@));
    }
}

/// The mappings from tags, events and dependencies to cache names, the
/// metadata of each cache, and which caches have registered a clear action
/// and a selective-invalidation action. The actions themselves are kept by
/// the caller; the registry decides which of them a request must run.
pub struct InvalidationRegistry {
    tag_to_caches: StrMap<Vec<String>>,
    event_to_caches: StrMap<Vec<String>>,
    dependency_to_caches: StrMap<Vec<String>>,
    cache_metadata: StrMap<InvalidationMetadata>,
    clear_callbacks: StrMap<()>,
    invalidation_check_callbacks: StrMap<()>,
}

/// Every list of an index holds each name at most once.
pub open spec fn index_wf(m: Map<Seq<char>, Vec<String>>) -> bool {
    forall|k: Seq<char>| #[trigger] m.contains_key(k) ==> names_distinct(m[k]@)
}

/// Files `name` under every key of `keys`.
fn file_all(index: &mut StrMap<Vec<String>>, keys: &Vec<String>, name: &str)
    requires
        index_wf(old(index)@),
    ensures
        index_wf(final(index)@),
        forall|k: Seq<char>| #[trigger] filed_under(final(index)@, k) == filed(old(index)@, keys@, name@, k),
{
    let mut i: usize = 0;
    while i < keys.len()
        invariant
            0 <= i <= keys@.len(),
            index_wf(index@),
            forall|k: Seq<char>| #[trigger] filed_under(index@, k) == filed(old(index)@, keys@.take(i as int), name@, k),
        decreases keys@.len() - i,
    {
        let ghost before = index@;
        file_name(index, &keys[i], name);
        proof {
            assert(keys_view(keys@.take(i + 1)) =~= keys_view(keys@.take(i as int)).push(keys@[i as int]@));
            assert forall|k: Seq<char>| #[trigger] filed_under(index@, k) == filed(old(index)@, keys@.take(i + 1), name@, k) by {
                assert(filed_under(before, k) == filed(old(index)@, keys@.take(i as int), name@, k));
                if k == keys@[i as int]@ {
                    assert(keys_view(keys@.take(i + 1)).contains(k)) by {
                        assert(keys_view(keys@.take(i + 1))[i as int] == k);
                    }
                    if keys_view(keys@.take(i as int)).contains(k) {
                        assert(filed_under(old(index)@, k).insert(name@).insert(name@) =~= filed_under(old(index)@, k).insert(name@));
                    }
                } else {
                    assert(keys_view(keys@.take(i + 1)).contains(k) == keys_view(keys@.take(i as int)).contains(k)) by {
                        if keys_view(keys@.take(i + 1)).contains(k) {
                            let j = choose|j: int| 0 <= j < i + 1 && #[trigger] keys_view(keys@.take(i + 1))[j] == k;
                            assert(j < i);
                            assert(keys_view(keys@.take(i as int))[j] == k);
                        }
                        if keys_view(keys@.take(i as int)).contains(k) {
                            let j = choose|j: int| 0 <= j < i && #[trigger] keys_view(keys@.take(i as int))[j] == k;
                            assert(keys_view(keys@.take(i + 1))[j] == k);
                        }
                    }
                }
            }
        }
        i = i + 1;
    }
    assert(keys@.take(keys@.len() as int) =~= keys@);
}

/// The names of `names` that are keys of `present`, each once.
fn names_present<V>(names: &Vec<String>, present: &StrMap<V>) -> (r: Vec<String>)
    requires
        names_distinct(names@),
    ensures
        names_distinct(r@),
        name_set(r@) == name_set(names@).intersect(present@.dom()),
{
    let mut r: Vec<String> = Vec::new();
    let mut i: usize = 0;
    while i < names.len()
        invariant
            0 <= i <= names@.len(),
            names_distinct(names@),
            names_distinct(r@),
            name_set(r@) == name_set(names@.take(i as int)).intersect(present@.dom()),
        decreases names@.len() - i,
    {
        let ghost before = r@;
        proof {
            assert(keys_view(names@.take(i + 1)) =~= keys_view(names@.take(i as int)).push(names@[i as int]@));
            keys_view(names@.take(i as int)).lemma_push_to_set_commute(names@[i as int]@);
        }
        if present.contains_key(names[i].as_str()) {
            r.push(names[i].clone());
            proof {
                assert(keys_view(r@) =~= keys_view(before).push(names@[i as int]@));
                keys_view(before).lemma_push_to_set_commute(names@[i as int]@);
                assert(name_set(r@) =~= name_set(names@.take(i + 1)).intersect(present@.dom()));
                assert forall|a: int, b: int| 0 <= a < r@.len() && 0 <= b < r@.len() && a != b implies #[trigger] r@[a]@ != #[trigger] r@[b]@ by {
                    let n = before.len() as int;
                    if a == n || b == n {
                        let other = if a == n { b } else { a };
                        assert(name_set(before).contains(r@[other]@)) by {
                            assert(keys_view(before)[other] == r@[other]@);
                        }
                        assert(name_set(names@.take(i as int)).contains(r@[other]@));
                        let j = choose|j: int| 0 <= j < i && #[trigger] keys_view(names@.take(i as int))[j] == r@[other]@;
                        assert(names@[j]@ == r@[other]@);
                        assert(names@[i as int]@ != names@[j]@);
                    }
                }
            }
        } else {
            assert(name_set(r@) =~= name_set(names@.take(i + 1)).intersect(present@.dom()));
        }
        i = i + 1;
    }
    assert(names@.take(names@.len() as int) =~= names@);
    r
}

/// A copy of a list of names.
fn copy_names(names: &Vec<String>) -> (r: Vec<String>)
    ensures
        keys_view(r@) == keys_view(names@),
{
    let mut r: Vec<String> = Vec::new();
    let mut i: usize = 0;
    while i < names.len()
        invariant
            0 <= i <= names@.len(),
            r@.len() == i,
            forall|j: int| 0 <= j < i ==> #[trigger] r@[j]@ == names@[j]@,
        decreases names@.len() - i,
    {
        r.push(names[i].clone());
        i = i + 1;
    }
    assert(keys_view(r@) =~= keys_view(names@));
    r
}

/// The names filed under `key` in an index, each once.
fn lookup(index: &StrMap<Vec<String>>, key: &str) -> (r: Vec<String>)
    requires
        index_wf(index@),
    ensures
        names_distinct(r@),
        name_set(r@) == filed_under(index@, key@),
{
    match index.get(key) {
        Some(v) => {
            let r = copy_names(v);
            assert(index@.contains_key(key@));
            assert(names_distinct(v@));
            assert(r@.len() == keys_view(r@).len());
            assert(v@.len() == keys_view(v@).len());
            assert forall|a: int, b: int| 0 <= a < r@.len() && 0 <= b < r@.len() && a != b implies #[trigger] r@[a]@ != #[trigger] r@[b]@ by {
                assert(keys_view(r@)[a] == keys_view(v@)[a]);
                assert(keys_view(r@)[b] == keys_view(v@)[b]);
                assert(v@[a]@ != v@[b]@);
            }
            r
        },
        None => {
            let r: Vec<String> = Vec::new();
            assert(name_set(r@) =~= Set::<Seq<char>>::empty());
            r
        },
    }
}

impl InvalidationRegistry {
    /// Caches by tag.
    pub closed spec fn tags(self) -> Map<Seq<char>, Vec<String>> {
        self.tag_to_caches@
    }

    /// Caches by event.
    pub closed spec fn events(self) -> Map<Seq<char>, Vec<String>> {
        self.event_to_caches@
    }

    /// Dependent caches by dependency.
    pub closed spec fn dependencies(self) -> Map<Seq<char>, Vec<String>> {
        self.dependency_to_caches@
    }

    /// The metadata registered for each cache.
    pub closed spec fn metadata(self) -> Map<Seq<char>, InvalidationMetadata> {
        self.cache_metadata@
    }

    /// The caches that have a clear action.
    pub closed spec fn clearable(self) -> Set<Seq<char>> {
        self.clear_callbacks@.dom()
    }

    /// The caches that have a selective-invalidation action.
    pub closed spec fn checkable(self) -> Set<Seq<char>> {
        self.invalidation_check_callbacks@.dom()
    }

    /// Every list of cache names holds each name once.
    #[verifier::type_invariant]
    closed spec fn wf(self) -> bool {
        &&& index_wf(self.tag_to_caches@)
        &&& index_wf(self.event_to_caches@)
        &&& index_wf(self.dependency_to_caches@)
    }

    /// An empty registry.
    pub fn new() -> (r: Self)
        ensures
            r.tags() == Map::<Seq<char>, Vec<String>>::empty(),
            r.events() == Map::<Seq<char>, Vec<String>>::empty(),
            r.dependencies() == Map::<Seq<char>, Vec<String>>::empty(),
            r.metadata() == Map::<Seq<char>, InvalidationMetadata>::empty(),
            r.clearable() == Set::<Seq<char>>::empty(),
            r.checkable() == Set::<Seq<char>>::empty(),
    {
        InvalidationRegistry {
            tag_to_caches: StrMap::new(),
            event_to_caches: StrMap::new(),
            dependency_to_caches: StrMap::new(),
            cache_metadata: StrMap::new(),
            clear_callbacks: StrMap::new(),
            invalidation_check_callbacks: StrMap::new(),
        }
    }

    /// Files the cache `cache_name` under each of its tags, events and
    /// dependencies, and records its metadata.
    pub fn register(&mut self, cache_name: &str, metadata: InvalidationMetadata)
        ensures
            forall|k: Seq<char>| #[trigger] filed_under(final(self).tags(), k) == filed(old(self).tags(), metadata.tags@, cache_name@, k),
            forall|k: Seq<char>| #[trigger] filed_under(final(self).events(), k) == filed(old(self).events(), metadata.events@, cache_name@, k),
            forall|k: Seq<char>| #[trigger] filed_under(final(self).dependencies(), k) == filed(old(self).dependencies(), metadata.dependencies@, cache_name@, k),
            final(self).metadata() == old(self).metadata().insert(cache_name@, metadata),
            final(self).clearable() == old(self).clearable(),
            final(self).checkable() == old(self).checkable(),
    {
        proof {
            use_type_invariant(&*self);
        }
        let mut tags: StrMap<Vec<String>> = StrMap::new();
        let mut events: StrMap<Vec<String>> = StrMap::new();
        let mut dependencies: StrMap<Vec<String>> = StrMap::new();
        std::mem::swap(&mut tags, &mut self.tag_to_caches);
        std::mem::swap(&mut events, &mut self.event_to_caches);
        std::mem::swap(&mut dependencies, &mut self.dependency_to_caches);
        file_all(&mut tags, &metadata.tags, cache_name);
        file_all(&mut events, &metadata.events, cache_name);
        file_all(&mut dependencies, &metadata.dependencies, cache_name);
        self.tag_to_caches = tags;
        self.event_to_caches = events;
        self.dependency_to_caches = dependencies;
        let mut meta: StrMap<InvalidationMetadata> = StrMap::new();
        std::mem::swap(&mut meta, &mut self.cache_metadata);
        meta.insert(cache_name.to_string(), metadata);
        self.cache_metadata = meta;
    }

    /// Records that the cache `cache_name` has a clear action.
    pub fn register_callback(&mut self, cache_name: &str)
        ensures
            final(self).clearable() == old(self).clearable().insert(cache_name@),
            final(self).checkable() == old(self).checkable(),
            final(self).tags() == old(self).tags(),
            final(self).events() == old(self).events(),
            final(self).dependencies() == old(self).dependencies(),
            final(self).metadata() == old(self).metadata(),
    {
        proof {
            use_type_invariant(&*self);
        }
        let mut actions: StrMap<()> = StrMap::new();
        std::mem::swap(&mut actions, &mut self.clear_callbacks);
        actions.insert(cache_name.to_string(), ());
        self.clear_callbacks = actions;
    }

    /// Records that the cache `cache_name` has a selective-invalidation
    /// action.
    pub fn register_invalidation_callback(&mut self, cache_name: &str)
        ensures
            final(self).checkable() == old(self).checkable().insert(cache_name@),
            final(self).clearable() == old(self).clearable(),
            final(self).tags() == old(self).tags(),
            final(self).events() == old(self).events(),
            final(self).dependencies() == old(self).dependencies(),
            final(self).metadata() == old(self).metadata(),
    {
        proof {
            use_type_invariant(&*self);
        }
        let mut actions: StrMap<()> = StrMap::new();
        std::mem::swap(&mut actions, &mut self.invalidation_check_callbacks);
        actions.insert(cache_name.to_string(), ());
        self.invalidation_check_callbacks = actions;
    }

    /// The caches whose clear action a `tag` invalidation runs: those filed
    /// under the tag that have a clear action, each once. Their number is
    /// the count of invalidated caches.
    pub fn invalidate_by_tag(&self, tag: &str) -> (r: Vec<String>)
        ensures
            names_distinct(r@),
            name_set(r@) == filed_under(self.tags(), tag@).intersect(self.clearable()),
    {
        proof {
            use_type_invariant(self);
        }
        let names = lookup(&self.tag_to_caches, tag);
        names_present(&names, &self.clear_callbacks)
    }

    /// The caches whose clear action an `event` invalidation runs: those
    /// filed under the event that have a clear action, each once.
    pub fn invalidate_by_event(&self, event: &str) -> (r: Vec<String>)
        ensures
            names_distinct(r@),
            name_set(r@) == filed_under(self.events(), event@).intersect(self.clearable()),
    {
        proof {
            use_type_invariant(self);
        }
        let names = lookup(&self.event_to_caches, event);
        names_present(&names, &self.clear_callbacks)
    }

    /// The caches whose clear action a change of `dependency` runs: the
    /// caches that depend on it and have a clear action, each once.
    pub fn invalidate_by_dependency(&self, dependency: &str) -> (r: Vec<String>)
        ensures
            names_distinct(r@),
            name_set(r@) == filed_under(self.dependencies(), dependency@).intersect(
                self.clearable(),
            ),
    {
        proof {
            use_type_invariant(self);
        }
        let names = lookup(&self.dependency_to_caches, dependency);
        names_present(&names, &self.clear_callbacks)
    }

    /// Whether the cache `cache_name` has a clear action to run.
    pub fn invalidate_cache(&self, cache_name: &str) -> (r: bool)
        ensures
            r == self.clearable().contains(cache_name@),
    {
        self.clear_callbacks.contains_key(cache_name)
    }

    /// The caches filed under `tag`, each once.
    pub fn get_caches_by_tag(&self, tag: &str) -> (r: Vec<String>)
        ensures
            names_distinct(r@),
            name_set(r@) == filed_under(self.tags(), tag@),
    {
        proof {
            use_type_invariant(self);
        }
        lookup(&self.tag_to_caches, tag)
    }

    /// The caches filed under `event`, each once.
    pub fn get_caches_by_event(&self, event: &str) -> (r: Vec<String>)
        ensures
            names_distinct(r@),
            name_set(r@) == filed_under(self.events(), event@),
    {
        proof {
            use_type_invariant(self);
        }
        lookup(&self.event_to_caches, event)
    }

    /// The caches that depend on `dependency`, each once.
    pub fn get_dependent_caches(&self, dependency: &str) -> (r: Vec<String>)
        ensures
            names_distinct(r@),
            name_set(r@) == filed_under(self.dependencies(), dependency@),
    {
        proof {
            use_type_invariant(self);
        }
        lookup(&self.dependency_to_caches, dependency)
    }

    /// Whether the cache `cache_name` has a selective-invalidation action
    /// to run with the caller's check.
    pub fn invalidate_with(&self, cache_name: &str) -> (r: bool)
        ensures
            r == self.checkable().contains(cache_name@),
    {
        self.invalidation_check_callbacks.contains_key(cache_name)
    }

    /// The caches whose selective-invalidation action a registry-wide check
    /// runs: every cache that has one, each once. Their number is the count
    /// of caches the check was applied to.
    pub fn invalidate_all_with(&self) -> (r: Vec<String>)
        ensures
            r@.len() == self.checkable().len(),
            forall|i: int| 0 <= i < r@.len() ==> self.checkable().contains(#[trigger] r@[i]@),
            forall|k: Seq<char>| #[trigger] self.checkable().contains(k) ==> exists|i: int|
                0 <= i < r@.len() && r@[i]@ == k,
            names_distinct(r@),
    {
        self.invalidation_check_callbacks.keys()
    }

    /// Forgets every registration.
    pub fn clear(&mut self)
        ensures
            final(self).tags() == Map::<Seq<char>, Vec<String>>::empty(),
            final(self).events() == Map::<Seq<char>, Vec<String>>::empty(),
            final(self).dependencies() == Map::<Seq<char>, Vec<String>>::empty(),
            final(self).metadata() == Map::<Seq<char>, InvalidationMetadata>::empty(),
            final(self).clearable() == Set::<Seq<char>>::empty(),
            final(self).checkable() == Set::<Seq<char>>::empty(),
    {
        proof {
            use_type_invariant(&*self);
        }
        self.tag_to_caches = StrMap::new();
        self.event_to_caches = StrMap::new();
        self.dependency_to_caches = StrMap::new();
        self.cache_metadata = StrMap::new();
        self.clear_callbacks = StrMap::new();
        self.invalidation_check_callbacks = StrMap::new();
    }
}

impl Default for InvalidationRegistry {
    /// An empty registry.
    fn default() -> (r: Self)
        ensures
            r.clearable() == Set::<Seq<char>>::empty(),
            r.checkable() == Set::<Seq<char>>::empty(),
    {
        InvalidationRegistry::new()
    }
}

} // verus!

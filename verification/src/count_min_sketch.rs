use std::collections::hash_map::DefaultHasher;
use std::hash::{Hash, Hasher};
use vstd::prelude::*;
use vstd::std_specs::hash::DefaultHasherAdditionalSpecFns;

verus! {

/// Feeds `value` into `state` (`<K as Hash>::hash`). Nothing is claimed of
/// the state that results: it depends on the type's `Hash` implementation.
#[verifier::external_body]
fn hash_into<K: Hash + ?Sized>(value: &K, state: &mut DefaultHasher) {
    value.hash(state)
}

/// A counter plus one, saturating at `u32::MAX`.
pub open spec fn sat_inc(c: u32) -> u32 {
    if c == u32::MAX {
        u32::MAX
    } else {
        (c + 1) as u32
    }
}

/// Rows of counters with the counter at `idx[i]` of every row `i` raised by
/// one (saturating).
pub open spec fn incremented(rows: Seq<Seq<u32>>, idx: Seq<usize>) -> Seq<Seq<u32>> {
    Seq::new(rows.len(), |i: int| rows[i].update(idx[i] as int, sat_inc(rows[i][idx[i] as int])))
}

/// The least of the counters at `idx[i]` in the first `n` rows, or
/// `u32::MAX` when `n` is zero.
pub open spec fn min_at(rows: Seq<Seq<u32>>, idx: Seq<usize>, n: int) -> u32
    decreases n,
{
    if n <= 0 {
        u32::MAX
    } else {
        let prev = min_at(rows, idx, n - 1);
        let c = rows[n - 1][idx[n - 1] as int];
        if c < prev {
            c
        } else {
            prev
        }
    }
}

/// Every counter halved (rounding down).
pub open spec fn halved(rows: Seq<Seq<u32>>) -> Seq<Seq<u32>> {
    Seq::new(rows.len(), |i: int| Seq::new(rows[i].len(), |j: int| (rows[i][j] / 2) as u32))
}

/// Every counter set to zero.
pub open spec fn zeroed(rows: Seq<Seq<u32>>) -> Seq<Seq<u32>> {
    Seq::new(rows.len(), |i: int| Seq::new(rows[i].len(), |j: int| 0u32))
}

/// A bucket choice for every row: one index per row, each within the row.
pub open spec fn valid_buckets(idx: Seq<usize>, depth: usize, width: usize) -> bool {
    idx.len() == depth && forall|i: int| 0 <= i < depth ==> #[trigger] idx[i] < width
}

/// Approximate frequency counting: `depth` rows of `width` counters; a key
/// is hashed to one counter per row. Incrementing raises those counters and
/// the estimate is the least of them.
#[derive(Clone, Debug)]
pub struct CountMinSketch {
    /// The counters, one row per hash function.
    pub counters: Vec<Vec<u32>>,
    /// Number of rows (hash functions).
    pub depth: usize,
    /// Number of counters per row.
    pub width: usize,
    /// Increments performed, as decayed.
    pub total_count: u64,
}

impl CountMinSketch {
    /// The counters, row by row.
    pub open spec fn rows(&self) -> Seq<Seq<u32>> {
        Seq::new(self.counters@.len(), |i: int| self.counters@[i]@)
    }

    /// The rows match the declared dimensions.
    pub open spec fn wf(&self) -> bool {
        &&& self.counters@.len() == self.depth
        &&& forall|i: int| 0 <= i < self.depth ==> #[trigger] self.counters@[i]@.len() == self.width
    }

    /// A sketch of `depth` rows of `width` zero counters.
    pub fn new(width: usize, depth: usize) -> (r: Self)
        ensures
            r.wf(),
            r.width == width,
            r.depth == depth,
            r.total_count == 0,
            forall|i: int, j: int| 0 <= i < depth && 0 <= j < width ==> r.rows()[i][j] == 0,
    {
        let mut counters: Vec<Vec<u32>> = Vec::new();
        let mut i: usize = 0;
        while i < depth
            invariant
                0 <= i <= depth,
                counters@.len() == i,
                forall|a: int| 0 <= a < i ==> #[trigger] counters@[a]@.len() == width,
                forall|a: int, b: int| 0 <= a < i && 0 <= b < width ==> counters@[a]@[b] == 0,
            decreases depth - i,
        {
            let mut row: Vec<u32> = Vec::new();
            let mut j: usize = 0;
            while j < width
                invariant
                    0 <= j <= width,
                    row@.len() == j,
                    forall|b: int| 0 <= b < j ==> row@[b] == 0,
                decreases width - j,
            {
                row.push(0);
                j = j + 1;
            }
            counters.push(row);
            i = i + 1;
        }
        CountMinSketch { counters, depth, width, total_count: 0 }
    }

    /// The counter index that row `hash_index` uses for `key`: the digest
    /// that a fresh `DefaultHasher` gives of the row index followed by the
    /// key, reduced modulo the row width.
    pub fn hash<K: Hash + ?Sized>(&self, key: &K, hash_index: usize) -> (r: usize)
        requires
            self.width > 0,
        ensures
            r < self.width,
            exists|written: Seq<Seq<u8>>|
                r == (#[trigger] DefaultHasher::spec_finish(written) as usize) % self.width,
    {
        let mut hasher = DefaultHasher::new();
        hash_into(&hash_index, &mut hasher);
        hash_into(key, &mut hasher);
        let digest = hasher.finish();
        let r = (digest as usize) % self.width;
        assert(r == (DefaultHasher::spec_finish(hasher@) as usize) % self.width);
        r
    }

    /// Raises the counter of `key` in every row by one (saturating) and
    /// counts one more increment (saturating).
    pub fn increment<K: Hash + ?Sized>(&mut self, key: &K)
        requires
            old(self).wf(),
            old(self).depth == 0 || old(self).width > 0,
        ensures
            final(self).wf(),
            final(self).depth == old(self).depth,
            final(self).width == old(self).width,
            exists|idx: Seq<usize>|
                #![trigger incremented(old(self).rows(), idx)]
                valid_buckets(idx, old(self).depth, old(self).width) && final(self).rows()
                    == incremented(old(self).rows(), idx),
            final(self).total_count == if old(self).total_count == u64::MAX {
                u64::MAX
            } else {
                (old(self).total_count + 1) as u64
            },
    {
        let ghost rows0 = self.rows();
        let ghost mut idx: Seq<usize> = Seq::empty();
        let mut i: usize = 0;
        while i < self.depth
            invariant
                self.wf(),
                self.depth == old(self).depth,
                self.width == old(self).width,
                self.depth == 0 || self.width > 0,
                rows0 == old(self).rows(),
                self.total_count == old(self).total_count,
                0 <= i <= self.depth,
                idx.len() == i,
                forall|a: int| 0 <= a < i ==> #[trigger] idx[a] < self.width,
                forall|a: int|
                    0 <= a < i ==> #[trigger] self.counters@[a]@ == rows0[a].update(
                        idx[a] as int,
                        sat_inc(rows0[a][idx[a] as int]),
                    ),
                forall|a: int| i <= a < self.depth ==> #[trigger] self.counters@[a]@ == rows0[a],
            decreases self.depth - i,
        {
            let index = self.hash(key, i);
            let ghost before = self.counters@;
            let c = self.counters[i][index];
            self.counters[i][index] = c.saturating_add(1);
            proof {
                assert(self.counters@.len() == before.len());
                assert forall|a: int| 0 <= a < self.depth && a != i implies self.counters@[a] == before[a] by {}
                assert(self.counters@[i as int]@ == before[i as int]@.update(index as int, sat_inc(c)));
                idx = idx.push(index);
            }
            i = i + 1;
        }
        self.total_count = self.total_count.saturating_add(1);
        assert(self.rows() =~= incremented(rows0, idx));
    }

    /// The least of the counters of `key` across the rows (`u32::MAX` for a
    /// sketch without rows).
    pub fn estimate<K: Hash + ?Sized>(&self, key: &K) -> (r: u32)
        requires
            self.wf(),
            self.depth == 0 || self.width > 0,
        ensures
            exists|idx: Seq<usize>|
                #![trigger min_at(self.rows(), idx, self.depth as int)]
                valid_buckets(idx, self.depth, self.width) && r == min_at(
                    self.rows(),
                    idx,
                    self.depth as int,
                ),
    {
        let ghost mut idx: Seq<usize> = Seq::empty();
        let mut min_count: u32 = u32::MAX;
        let mut i: usize = 0;
        while i < self.depth
            invariant
                self.wf(),
                self.depth == 0 || self.width > 0,
                0 <= i <= self.depth,
                idx.len() == i,
                forall|a: int| 0 <= a < i ==> #[trigger] idx[a] < self.width,
                min_count == min_at(self.rows(), idx, i as int),
            decreases self.depth - i,
        {
            let index = self.hash(key, i);
            let c = self.counters[i][index];
            proof {
                let idx2 = idx.push(index);
                assert forall|n: int| 0 <= n <= i implies min_at(self.rows(), idx2, n) == min_at(
                    self.rows(),
                    idx,
                    n,
                ) by {
                    lemma_min_at_prefix(self.rows(), idx, idx2, n);
                }
                idx = idx2;
            }
            if c < min_count {
                min_count = c;
            }
            i = i + 1;
        }
        min_count
    }

    /// Halves every counter and the increment count (rounding down).
    pub fn decay(&mut self)
        requires
            old(self).wf(),
        ensures
            final(self).wf(),
            final(self).depth == old(self).depth,
            final(self).width == old(self).width,
            final(self).rows() == halved(old(self).rows()),
            final(self).total_count == old(self).total_count / 2,
    {
        let ghost rows0 = self.rows();
        assert(forall|a: int| 0 <= a < self.depth ==> #[trigger] rows0[a] == self.counters@[a]@);
        let mut i: usize = 0;
        while i < self.counters.len()
            invariant
                self.wf(),
                self.depth == old(self).depth,
                self.width == old(self).width,
                rows0 == old(self).rows(),
                rows0.len() == self.depth,
                forall|a: int| 0 <= a < self.depth ==> #[trigger] rows0[a].len() == self.width,
                self.total_count == old(self).total_count,
                0 <= i <= self.depth,
                forall|a: int|
                    0 <= a < i ==> #[trigger] self.counters@[a]@ == halved(rows0)[a],
                forall|a: int| i <= a < self.depth ==> #[trigger] self.counters@[a]@ == rows0[a],
            decreases self.depth - i,
        {
            let mut j: usize = 0;
            while j < self.counters[i].len()
                invariant
                    self.wf(),
                    self.depth == old(self).depth,
                    self.width == old(self).width,
                    rows0 == old(self).rows(),
                    rows0.len() == self.depth,
                    forall|a: int| 0 <= a < self.depth ==> #[trigger] rows0[a].len() == self.width,
                    self.total_count == old(self).total_count,
                    0 <= i < self.depth,
                    0 <= j <= self.width,
                    forall|a: int|
                        0 <= a < i ==> #[trigger] self.counters@[a]@ == halved(rows0)[a],
                    forall|a: int| i < a < self.depth ==> #[trigger] self.counters@[a]@ == rows0[a],
                    self.counters@[i as int]@.len() == rows0[i as int].len(),
                    forall|b: int| 0 <= b < j ==> self.counters@[i as int]@[b] == rows0[i as int][b] / 2,
                    forall|b: int|
                        j <= b < self.width ==> self.counters@[i as int]@[b] == rows0[i as int][b],
                decreases self.width - j,
            {
                let ghost before = self.counters@;
                let c = self.counters[i][j];
                self.counters[i][j] = c / 2;
                proof {
                    assert forall|a: int| 0 <= a < self.depth && a != i implies self.counters@[a] == before[a] by {}
                }
                j = j + 1;
            }
            assert(j == self.width);
            assert(halved(rows0)[i as int].len() == rows0[i as int].len());
            assert forall|b: int| 0 <= b < self.width implies self.counters@[i as int]@[b] == halved(rows0)[i as int][b] by {
                assert(self.counters@[i as int]@[b] == rows0[i as int][b] / 2);
            }
            assert(self.counters@[i as int]@ =~= halved(rows0)[i as int]);
            i = i + 1;
        }
        self.total_count = self.total_count / 2;
        assert(self.rows() =~= halved(rows0));
    }

    /// Sets every counter and the increment count to zero.
    pub fn reset(&mut self)
        requires
            old(self).wf(),
        ensures
            final(self).wf(),
            final(self).depth == old(self).depth,
            final(self).width == old(self).width,
            final(self).rows() == zeroed(old(self).rows()),
            final(self).total_count == 0,
    {
        let ghost rows0 = self.rows();
        assert(forall|a: int| 0 <= a < self.depth ==> #[trigger] rows0[a] == self.counters@[a]@);
        let mut i: usize = 0;
        while i < self.counters.len()
            invariant
                self.wf(),
                self.depth == old(self).depth,
                self.width == old(self).width,
                rows0 == old(self).rows(),
                rows0.len() == self.depth,
                forall|a: int| 0 <= a < self.depth ==> #[trigger] rows0[a].len() == self.width,
                0 <= i <= self.depth,
                forall|a: int|
                    0 <= a < i ==> #[trigger] self.counters@[a]@ == zeroed(rows0)[a],
                forall|a: int| i <= a < self.depth ==> #[trigger] self.counters@[a]@ == rows0[a],
            decreases self.depth - i,
        {
            let mut j: usize = 0;
            while j < self.counters[i].len()
                invariant
                    self.wf(),
                    self.depth == old(self).depth,
                    self.width == old(self).width,
                    rows0 == old(self).rows(),
                    rows0.len() == self.depth,
                    forall|a: int| 0 <= a < self.depth ==> #[trigger] rows0[a].len() == self.width,
                    0 <= i < self.depth,
                    0 <= j <= self.width,
                    forall|a: int|
                        0 <= a < i ==> #[trigger] self.counters@[a]@ == zeroed(rows0)[a],
                    forall|a: int| i < a < self.depth ==> #[trigger] self.counters@[a]@ == rows0[a],
                    self.counters@[i as int]@.len() == rows0[i as int].len(),
                    forall|b: int| 0 <= b < j ==> self.counters@[i as int]@[b] == 0,
                    forall|b: int|
                        j <= b < self.width ==> self.counters@[i as int]@[b] == rows0[i as int][b],
                decreases self.width - j,
            {
                let ghost before = self.counters@;
                self.counters[i][j] = 0;
                proof {
                    assert forall|a: int| 0 <= a < self.depth && a != i implies self.counters@[a] == before[a] by {}
                }
                j = j + 1;
            }
            assert(j == self.width);
            assert(zeroed(rows0)[i as int].len() == rows0[i as int].len());
            assert(self.counters@[i as int]@ =~= zeroed(rows0)[i as int]);
            i = i + 1;
        }
        self.total_count = 0;
        assert(self.rows() =~= zeroed(rows0));
    }

    /// The number of increments recorded (halved by each decay).
    pub fn total_count(&self) -> (r: u64)
        ensures
            r == self.total_count,
    {
        self.total_count
    }
}

/// `min_at` over the first `n` rows only reads the first `n` bucket choices.
proof fn lemma_min_at_prefix(rows: Seq<Seq<u32>>, idx1: Seq<usize>, idx2: Seq<usize>, n: int)
    requires
        0 <= n <= idx1.len(),
        n <= idx2.len(),
        forall|a: int| 0 <= a < n ==> idx1[a] == idx2[a],
    ensures
        min_at(rows, idx1, n) == min_at(rows, idx2, n),
    decreases n,
{
    if n > 0 {
        lemma_min_at_prefix(rows, idx1, idx2, n - 1);
    }
}

/// The rows have `n` rows of `width` counters each, at least.
pub open spec fn rows_fit(rows: Seq<Seq<u32>>, n: int, width: usize) -> bool {
    n <= rows.len() && forall|i: int| 0 <= i < n ==> #[trigger] rows[i].len() == width
}

/// Incrementing a key raises its estimate by exactly one (saturating at
/// `u32::MAX`): every counter the key hashes to goes up by one, so their
/// least goes up by one.
pub proof fn law_increment_raises_estimate(rows: Seq<Seq<u32>>, idx: Seq<usize>, n: int, width: usize)
    requires
        0 <= n,
        rows_fit(rows, n, width),
        n <= idx.len(),
        forall|i: int| 0 <= i < n ==> #[trigger] idx[i] < width,
    ensures
        min_at(incremented(rows, idx), idx, n) == sat_inc(min_at(rows, idx, n)),
    decreases n,
{
    if n > 0 {
        law_increment_raises_estimate(rows, idx, n - 1, width);
        assert(incremented(rows, idx)[n - 1][idx[n - 1] as int] == sat_inc(
            rows[n - 1][idx[n - 1] as int],
        ));
    }
}

/// Increments of any key never lower the estimate of any key: counters only
/// go up. With the previous law, a key's estimate is never below the number
/// of times it was incremented since the last reset or decay.
pub proof fn law_increment_never_lowers(
    rows: Seq<Seq<u32>>,
    idx: Seq<usize>,
    other: Seq<usize>,
    n: int,
    width: usize,
)
    requires
        0 <= n,
        rows_fit(rows, n, width),
        n <= idx.len(),
        n <= other.len(),
        forall|i: int| 0 <= i < n ==> #[trigger] idx[i] < width,
        forall|i: int| 0 <= i < n ==> #[trigger] other[i] < width,
    ensures
        min_at(incremented(rows, other), idx, n) >= min_at(rows, idx, n),
    decreases n,
{
    if n > 0 {
        law_increment_never_lowers(rows, idx, other, n - 1, width);
        let r = rows[n - 1];
        let j = idx[n - 1] as int;
        let o = other[n - 1] as int;
        assert(incremented(rows, other)[n - 1] == r.update(o, sat_inc(r[o])));
        if j == o {
            assert(incremented(rows, other)[n - 1][j] == sat_inc(r[j]));
        } else {
            assert(incremented(rows, other)[n - 1][j] == r[j]);
        }
    }
}

/// Decay halves every estimate (rounding down), for a sketch with rows.
pub proof fn law_decay_halves_estimate(rows: Seq<Seq<u32>>, idx: Seq<usize>, n: int, width: usize)
    requires
        1 <= n,
        rows_fit(rows, n, width),
        n <= idx.len(),
        forall|i: int| 0 <= i < n ==> #[trigger] idx[i] < width,
    ensures
        min_at(halved(rows), idx, n) == min_at(rows, idx, n) / 2,
    decreases n,
{
    let j = idx[n - 1] as int;
    let c = rows[n - 1][j];
    assert(halved(rows)[n - 1][j] == c / 2);
    if n > 1 {
        law_decay_halves_estimate(rows, idx, n - 1, width);
        let p = min_at(rows, idx, n - 1);
        assert(c < p ==> c / 2 <= p / 2);
        assert(c >= p ==> c / 2 >= p / 2);
    } else {
        assert(min_at(rows, idx, 0) == u32::MAX);
        assert(min_at(halved(rows), idx, 0) == u32::MAX);
        assert(c / 2 < u32::MAX);
    }
}

/// After a reset every estimate is zero, for a sketch with rows.
pub proof fn law_reset_clears_estimate(rows: Seq<Seq<u32>>, idx: Seq<usize>, n: int, width: usize)
    requires
        1 <= n,
        rows_fit(rows, n, width),
        n <= idx.len(),
        forall|i: int| 0 <= i < n ==> #[trigger] idx[i] < width,
    ensures
        min_at(zeroed(rows), idx, n) == 0,
    decreases n,
{
    let j = idx[n - 1] as int;
    assert(zeroed(rows)[n - 1][j] == 0);
    if n > 1 {
        law_reset_clears_estimate(rows, idx, n - 1, width);
    }
}

} // verus!

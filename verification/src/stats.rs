use vstd::prelude::*;

verus! {

/// Hit and miss counts of a cache.
#[derive(Clone, Copy, Debug)]
pub struct CacheStats {
    hits: u64,
    misses: u64,
}

/// A counter plus one, wrapping around at `u64::MAX` as an atomic add does.
pub open spec fn wrapping_inc(c: u64) -> u64 {
    if c == u64::MAX {
        0
    } else {
        (c + 1) as u64
    }
}

/// A count after `n` more records, each wrapping around at `u64::MAX`.
pub open spec fn counted(c: u64, n: nat) -> u64
    decreases n,
{
    if n == 0 {
        c
    } else {
        wrapping_inc(counted(c, (n - 1) as nat))
    }
}

/// No record is lost: `n` records add exactly `n` to a count that does not
/// pass `u64::MAX`.
pub proof fn law_records_add_up(c: u64, n: nat)
    requires
        c + n <= u64::MAX,
    ensures
        counted(c, n) == c + n,
    decreases n,
{
    if n > 0 {
        law_records_add_up(c, (n - 1) as nat);
    }
}

impl CacheStats {
    /// The number of hits recorded.
    pub closed spec fn hit_count(self) -> u64 {
        self.hits
    }

    /// The number of misses recorded.
    pub closed spec fn miss_count(self) -> u64 {
        self.misses
    }

    /// Statistics with no hit and no miss.
    pub fn new() -> (r: Self)
        ensures
            r.hit_count() == 0,
            r.miss_count() == 0,
    {
        CacheStats { hits: 0, misses: 0 }
    }

    /// Records a hit.
    pub fn record_hit(&mut self)
        ensures
            final(self).hit_count() == wrapping_inc(old(self).hit_count()),
            final(self).miss_count() == old(self).miss_count(),
    {
        self.hits = self.hits.wrapping_add(1);
    }

    /// Records a miss.
    pub fn record_miss(&mut self)
        ensures
            final(self).miss_count() == wrapping_inc(old(self).miss_count()),
            final(self).hit_count() == old(self).hit_count(),
    {
        self.misses = self.misses.wrapping_add(1);
    }

    /// The number of hits.
    pub fn hits(&self) -> (r: u64)
        ensures
            r == self.hit_count(),
    {
        self.hits
    }

    /// The number of misses.
    pub fn misses(&self) -> (r: u64)
        ensures
            r == self.miss_count(),
    {
        self.misses
    }

    /// Hits plus misses.
    pub fn total_accesses(&self) -> (r: u64)
        requires
            self.hit_count() + self.miss_count() <= u64::MAX,
        ensures
            r == self.hit_count() + self.miss_count(),
    {
        self.hits + self.misses
    }

    /// Sets both counts back to zero.
    pub fn reset(&mut self)
        ensures
            final(self).hit_count() == 0,
            final(self).miss_count() == 0,
    {
        self.hits = 0;
        self.misses = 0;
    }
}

impl Default for CacheStats {
    /// Statistics with no hit and no miss.
    fn default() -> (r: Self)
        ensures
            r.hit_count() == 0,
            r.miss_count() == 0,
    {
        CacheStats::new()
    }
}

} // verus!

use vstd::prelude::*;

verus! {

/// A point in time taken from the monotonic clock of the standard library.
#[verifier::external_type_specification]
#[verifier::external_body]
pub struct ExInstant(std::time::Instant);

/// `Instant::clone`: an `Instant` is `Copy`, so its clone is the same point
/// in time.
pub assume_specification[ <std::time::Instant as Clone>::clone ](instant: &std::time::Instant) -> (r: std::time::Instant)
    ensures
        r == *instant,
;

/// Reads the monotonic clock (`std::time::Instant::now`).
/// Nothing is claimed of the value: it depends on the time of the call.
#[verifier::external_body]
fn instant_now() -> std::time::Instant {
    std::time::Instant::now()
}

/// Whole seconds elapsed since `at` (`Instant::elapsed` followed by
/// `Duration::as_secs`). Nothing is claimed of the value: it depends on the
/// time of the call.
#[verifier::external_body]
fn elapsed_secs(at: &std::time::Instant) -> u64 {
    at.elapsed().as_secs()
}

/// Whether an entry of the given age (in whole seconds) has outlived `ttl`.
pub open spec fn spec_ttl_exceeded(age_secs: u64, ttl: Option<u64>) -> bool {
    match ttl {
        Some(t) => age_secs >= t,
        None => false,
    }
}

/// Decides expiry from an entry's age in whole seconds: an entry expires once
/// its age reaches the time-to-live; without a time-to-live it never expires.
pub fn ttl_exceeded(age_secs: u64, ttl: Option<u64>) -> (r: bool)
    ensures
        r == spec_ttl_exceeded(age_secs, ttl),
{
    match ttl {
        Some(t) => age_secs >= t,
        None => false,
    }
}

/// A cached value together with its insertion time and its access count.
#[derive(Clone)]
pub struct CacheEntry<R> {
    pub value: R,
    pub inserted_at: std::time::Instant,
    pub frequency: u64,
}

impl<R> CacheEntry<R> {
    /// Wraps `value`, stamped with the current time and a zero access count.
    pub fn new(value: R) -> (r: Self)
        ensures
            r.value == value,
            r.frequency == 0,
    {
        CacheEntry { value, inserted_at: instant_now(), frequency: 0 }
    }

    /// Whether the entry's age, in whole seconds as the clock reads it now,
    /// has reached `ttl` seconds. Without a `ttl` the entry never expires;
    /// with a `ttl` of zero it always has.
    pub fn is_expired(&self, ttl: Option<u64>) -> (r: bool)
        ensures
            exists|age_secs: u64| r == #[trigger] spec_ttl_exceeded(age_secs, ttl),
            ttl is None ==> !r,
    {
        match ttl {
            Some(_) => {
                let age = elapsed_secs(&self.inserted_at);
                let r = ttl_exceeded(age, ttl);
                assert(r == spec_ttl_exceeded(age, ttl));
                r
            },
            None => {
                assert(false == spec_ttl_exceeded(0, ttl));
                false
            },
        }
    }

    /// Whole seconds since the entry was created. Nothing is claimed of the
    /// value: it depends on the time of the call.
    pub fn age_secs(&self) -> u64 {
        elapsed_secs(&self.inserted_at)
    }

    /// Counts one more access, saturating at `u64::MAX`.
    pub fn increment_frequency(&mut self)
        ensures
            final(self).frequency == (if old(self).frequency == u64::MAX {
                u64::MAX
            } else {
                (old(self).frequency + 1) as u64
            }),
            final(self).value == old(self).value,
            final(self).inserted_at == old(self).inserted_at,
    {
        self.frequency = self.frequency.saturating_add(1);
    }
}

} // verus!

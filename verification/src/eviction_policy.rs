use vstd::prelude::*;
use vstd::std_specs::convert::FromSpecImpl;

use crate::text::str_eq;

verus! {

/// How a full cache picks the entry to drop.
///
/// * `FIFO` evicts the oldest inserted entry; reads do not reorder.
/// * `LRU` evicts the least recently used entry; a read moves the key to the
///   most recent position. This is the default.
/// * `LFU` evicts the entry with the lowest access count; a read counts one
///   access.
/// * `ARC` evicts the entry whose access count times its distance from the
///   most recent position is lowest; a read does both of the above.
#[derive(Clone, Copy, Debug, PartialEq, Eq, Structural)]
pub enum EvictionPolicy {
    FIFO,
    LRU,
    LFU,
    ARC,
}

/// The Unicode lower-case form of a string, as `str::to_lowercase` computes it.
pub uninterp spec fn str_to_lowercase(s: Seq<char>) -> Seq<char>;

/// `str::to_lowercase`: the result holds the lower-case form of `s`.
#[verifier::external_body]
fn to_lowercase(s: &str) -> (r: String)
    ensures
        r@ == str_to_lowercase(s@),
{
    s.to_lowercase()
}

/// The policy named by an already lower-cased policy name, if any.
pub open spec fn policy_named(name: Seq<char>) -> Option<EvictionPolicy> {
    if name == "fifo"@ {
        Some(EvictionPolicy::FIFO)
    } else if name == "lru"@ {
        Some(EvictionPolicy::LRU)
    } else if name == "lfu"@ {
        Some(EvictionPolicy::LFU)
    } else if name == "arc"@ {
        Some(EvictionPolicy::ARC)
    } else {
        None
    }
}

/// The policy a name stands for, case aside; unknown names stand for LRU.
pub open spec fn policy_from_name(name: Seq<char>) -> EvictionPolicy {
    match policy_named(str_to_lowercase(name)) {
        Some(p) => p,
        None => EvictionPolicy::LRU,
    }
}

impl EvictionPolicy {
    /// The default policy, LRU.
    pub fn default() -> (r: Self)
        ensures
            r == EvictionPolicy::LRU,
    {
        EvictionPolicy::LRU
    }

    /// The policy named by `name`, which must already be in lower case:
    /// one of "fifo", "lru", "lfu" and "arc".
    pub fn from_lowercase_name(name: &str) -> (r: Option<Self>)
        ensures
            r == policy_named(name@),
    {
        if str_eq(name, "fifo") {
            Some(EvictionPolicy::FIFO)
        } else if str_eq(name, "lru") {
            Some(EvictionPolicy::LRU)
        } else if str_eq(name, "lfu") {
            Some(EvictionPolicy::LFU)
        } else if str_eq(name, "arc") {
            Some(EvictionPolicy::ARC)
        } else {
            None
        }
    }

    /// Whether `p`, in any case, names a policy.
    pub fn is_valid(p: &str) -> (r: bool)
        ensures
            r == policy_named(str_to_lowercase(p@)) is Some,
    {
        let lower = to_lowercase(p);
        Self::from_lowercase_name(lower.as_str()).is_some()
    }
}

impl<'a> From<&'a str> for EvictionPolicy {
    /// Reads a policy name, case aside; unknown names give LRU.
    fn from(s: &'a str) -> (r: Self) {
        let lower = to_lowercase(s);
        match Self::from_lowercase_name(lower.as_str()) {
            Some(p) => p,
            None => EvictionPolicy::LRU,
        }
    }
}

impl<'a> FromSpecImpl<&'a str> for EvictionPolicy {
    open spec fn obeys_from_spec() -> bool {
        true
    }

    open spec fn from_spec(s: &'a str) -> Self {
        policy_from_name(s@)
    }
}

} // verus!

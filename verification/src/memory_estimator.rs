use vstd::prelude::*;

verus! {

/// `String::capacity`: the number of bytes the string's buffer holds,
/// never below its length (which is at least its number of characters).
/// The exact value depends on how the string was allocated.
#[verifier::external_body]
fn string_capacity(s: &String) -> (r: usize)
    ensures
        r >= s@.len(),
{
    s.capacity()
}

/// `Vec::capacity`: the number of elements the vector can hold without
/// reallocating, never below its length.
#[verifier::external_body]
fn vec_capacity<T>(v: &Vec<T>) -> (r: usize)
    ensures
        r >= v@.len(),
{
    v.capacity()
}

/// What the first `n` elements of a vector own beyond their own sizes,
/// given each element's estimate: the sum of each estimate less the
/// element's own size (never below zero), wrapping around at `usize::MAX`.
pub open spec fn heap_extras<T>(items: Seq<T>, estimates: Seq<usize>, n: int) -> usize
    decreases n,
{
    if n <= 0 {
        0
    } else {
        heap_extras(items, estimates, n - 1).wrapping_add(
            estimates[n - 1].saturating_sub(core::mem::size_of_val(&items[n - 1])),
        )
    }
}

/// `heap_extras` of a prefix reads only the estimates of that prefix.
pub proof fn lemma_heap_extras_prefix<T>(items: Seq<T>, short: Seq<usize>, long: Seq<usize>, n: int)
    requires
        0 <= n <= short.len() <= long.len(),
        forall|i: int| 0 <= i < short.len() ==> short[i] == long[i],
    ensures
        heap_extras(items, short, n) == heap_extras(items, long, n),
    decreases n,
{
    if n > 0 {
        lemma_heap_extras_prefix(items, short, long, n - 1);
    }
}

/// Estimates how many bytes a value takes, heap allocations included.
///
/// The provided method counts only the value's own size
/// (`std::mem::size_of_val`); types that own heap memory should count it too.
pub trait MemoryEstimator {
    /// The estimated size in bytes.
    fn estimate_memory(&self) -> (r: usize)
        default_ensures
            r as nat == vstd::layout::spec_size_of_val::<Self>(self),
    {
        core::mem::size_of_val(self)
    }
}

impl MemoryEstimator for i8 {

}

impl MemoryEstimator for i16 {

}

impl MemoryEstimator for i32 {

}

impl MemoryEstimator for i64 {

}

impl MemoryEstimator for i128 {

}

impl MemoryEstimator for isize {

}

impl MemoryEstimator for u8 {

}

impl MemoryEstimator for u16 {

}

impl MemoryEstimator for u32 {

}

impl MemoryEstimator for u64 {

}

impl MemoryEstimator for u128 {

}

impl MemoryEstimator for usize {

}

impl MemoryEstimator for bool {

}

impl MemoryEstimator for char {

}

impl MemoryEstimator for () {

}

impl MemoryEstimator for String {
    /// The string's own size plus its buffer's capacity.
    fn estimate_memory(&self) -> (r: usize)
        ensures
            exists|capacity: usize|
                capacity >= self@.len() && r == #[trigger] core::mem::size_of::<String>().wrapping_add(
                    capacity,
                ),
    {
        let capacity = string_capacity(self);
        let r = core::mem::size_of::<String>().wrapping_add(capacity);
        assert(capacity >= self@.len() && r == core::mem::size_of::<String>().wrapping_add(capacity));
        r
    }
}

impl<T: MemoryEstimator> MemoryEstimator for Vec<T> {
    /// The vector's own size, plus its buffer (capacity times element size),
    /// plus whatever each element owns beyond its own size.
    fn estimate_memory(&self) -> (r: usize)
        ensures
            exists|capacity: usize, estimates: Seq<usize>|
                #![trigger capacity.wrapping_mul(core::mem::size_of::<T>()), heap_extras(self@, estimates, self@.len() as int)]
                {
                    &&& capacity >= self@.len()
                    &&& estimates.len() == self@.len()
                    &&& forall|i: int|
                        0 <= i < self@.len() ==> #[trigger] call_ensures(
                            T::estimate_memory,
                            (&self@[i],),
                            estimates[i],
                        )
                    &&& r == core::mem::size_of::<Vec<T>>().wrapping_add(
                        capacity.wrapping_mul(core::mem::size_of::<T>()),
                    ).wrapping_add(heap_extras(self@, estimates, self@.len() as int))
                },
    {
        let base = core::mem::size_of::<Vec<T>>();
        let capacity = vec_capacity(self);
        let buffer = capacity.wrapping_mul(core::mem::size_of::<T>());
        let mut extras: usize = 0;
        let mut i: usize = 0;
        let ghost mut estimates: Seq<usize> = Seq::empty();
        while i < self.len()
            invariant
                0 <= i <= self@.len(),
                estimates.len() == i,
                forall|j: int|
                    0 <= j < i ==> #[trigger] call_ensures(
                        T::estimate_memory,
                        (&self@[j],),
                        estimates[j],
                    ),
                extras == heap_extras(self@, estimates, i as int),
            decreases self@.len() - i,
        {
            let item = &self[i];
            let e = item.estimate_memory();
            proof {
                let old_estimates = estimates;
                estimates = estimates.push(e);
                lemma_heap_extras_prefix(self@, old_estimates, estimates, i as int);
            }
            extras = extras.wrapping_add(e.saturating_sub(core::mem::size_of_val(item)));
            i = i + 1;
        }
        let r = base.wrapping_add(buffer).wrapping_add(extras);
        assert(capacity.wrapping_mul(core::mem::size_of::<T>()) == buffer);
        assert(heap_extras(self@, estimates, self@.len() as int) == extras);
        r
    }
}

impl<T: MemoryEstimator> MemoryEstimator for Option<T> {
    /// The option's own size plus what the held value owns beyond its own
    /// size.
    fn estimate_memory(&self) -> (r: usize)
        ensures
            match self {
                Some(v) => exists|e: usize|
                    #[trigger] call_ensures(T::estimate_memory, (v,), e) && r
                        == core::mem::size_of::<Option<T>>().wrapping_add(
                        e.wrapping_sub(core::mem::size_of_val(v)),
                    ),
                None => r == core::mem::size_of::<Option<T>>(),
            },
    {
        let extra = match self {
            Some(val) => val.estimate_memory().wrapping_sub(core::mem::size_of_val(val)),
            None => 0,
        };
        core::mem::size_of::<Option<T>>().wrapping_add(extra)
    }
}

impl<T: MemoryEstimator, E: MemoryEstimator> MemoryEstimator for Result<T, E> {
    /// The result's own size plus what the held value or error owns beyond
    /// its own size.
    fn estimate_memory(&self) -> (r: usize)
        ensures
            match self {
                Ok(v) => exists|e: usize|
                    #[trigger] call_ensures(T::estimate_memory, (v,), e) && r
                        == core::mem::size_of::<Result<T, E>>().wrapping_add(
                        e.wrapping_sub(core::mem::size_of_val(v)),
                    ),
                Err(x) => exists|e: usize|
                    #[trigger] call_ensures(E::estimate_memory, (x,), e) && r
                        == core::mem::size_of::<Result<T, E>>().wrapping_add(
                        e.wrapping_sub(core::mem::size_of_val(x)),
                    ),
            },
    {
        let extra = match self {
            Ok(val) => val.estimate_memory().wrapping_sub(core::mem::size_of_val(val)),
            Err(err) => err.estimate_memory().wrapping_sub(core::mem::size_of_val(err)),
        };
        core::mem::size_of::<Result<T, E>>().wrapping_add(extra)
    }
}

impl<T1: MemoryEstimator, T2: MemoryEstimator> MemoryEstimator for (T1, T2) {
    /// The pair's own size plus what each part owns beyond its own size.
    fn estimate_memory(&self) -> (r: usize)
        ensures
            exists|a: usize, b: usize|
                #![trigger call_ensures(T1::estimate_memory, (&self.0,), a), call_ensures(T2::estimate_memory, (&self.1,), b)]
                call_ensures(T1::estimate_memory, (&self.0,), a) && call_ensures(
                    T2::estimate_memory,
                    (&self.1,),
                    b,
                ) && r == core::mem::size_of::<(T1, T2)>().wrapping_add(
                    a.wrapping_sub(core::mem::size_of_val(&self.0)),
                ).wrapping_add(b.wrapping_sub(core::mem::size_of_val(&self.1))),
    {
        let a = self.0.estimate_memory().wrapping_sub(core::mem::size_of_val(&self.0));
        let b = self.1.estimate_memory().wrapping_sub(core::mem::size_of_val(&self.1));
        core::mem::size_of::<(T1, T2)>().wrapping_add(a).wrapping_add(b)
    }
}

impl<T1: MemoryEstimator, T2: MemoryEstimator, T3: MemoryEstimator> MemoryEstimator for (T1, T2, T3) {
    /// The triple's own size plus what each part owns beyond its own size.
    fn estimate_memory(&self) -> (r: usize)
        ensures
            exists|a: usize, b: usize, c: usize|
                #![trigger call_ensures(T1::estimate_memory, (&self.0,), a), call_ensures(T2::estimate_memory, (&self.1,), b), call_ensures(T3::estimate_memory, (&self.2,), c)]
                call_ensures(T1::estimate_memory, (&self.0,), a) && call_ensures(
                    T2::estimate_memory,
                    (&self.1,),
                    b,
                ) && call_ensures(T3::estimate_memory, (&self.2,), c) && r
                    == core::mem::size_of::<(T1, T2, T3)>().wrapping_add(
                    a.wrapping_sub(core::mem::size_of_val(&self.0)),
                ).wrapping_add(b.wrapping_sub(core::mem::size_of_val(&self.1))).wrapping_add(
                    c.wrapping_sub(core::mem::size_of_val(&self.2)),
                ),
    {
        let a = self.0.estimate_memory().wrapping_sub(core::mem::size_of_val(&self.0));
        let b = self.1.estimate_memory().wrapping_sub(core::mem::size_of_val(&self.1));
        let c = self.2.estimate_memory().wrapping_sub(core::mem::size_of_val(&self.2));
        core::mem::size_of::<(T1, T2, T3)>().wrapping_add(a).wrapping_add(b).wrapping_add(c)
    }
}

impl<T: MemoryEstimator> MemoryEstimator for Box<T> {
    /// The box's own size plus the full estimate of the boxed value.
    fn estimate_memory(&self) -> (r: usize)
        ensures
            exists|e: usize|
                #[trigger] call_ensures(T::estimate_memory, (&**self,), e) && r
                    == core::mem::size_of::<Box<T>>().wrapping_add(e),
    {
        core::mem::size_of::<Box<T>>().wrapping_add((**self).estimate_memory())
    }
}

} // verus!

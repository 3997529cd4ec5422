use vstd::prelude::*;
use vstd::string::StrSliceExecFns;

verus! {

/// The cache method that the expansion of a cached function calls to store
/// its result.
#[derive(Clone, Copy, Debug, PartialEq, Eq, Structural)]
pub enum InsertCall {
    /// `insert(key, value)`.
    Insert,
    /// `insert_with_memory(key, value)`.
    InsertWithMemory,
    /// `insert_result(key, &result)`: only `Ok` values are stored.
    InsertResult,
    /// `insert_result_with_memory(key, &result)`.
    InsertResultWithMemory,
}

/// The insert method for a cache with or without a memory limit and a
/// function that returns a `Result` or not.
pub open spec fn insert_call_for(has_max_memory: bool, is_result: bool) -> InsertCall {
    if has_max_memory {
        if is_result {
            InsertCall::InsertResultWithMemory
        } else {
            InsertCall::InsertWithMemory
        }
    } else {
        if is_result {
            InsertCall::InsertResult
        } else {
            InsertCall::Insert
        }
    }
}

/// Chooses the insert method: the memory-aware ones when a memory limit is
/// configured, the result ones (which store only `Ok` values) when the
/// function returns a `Result`.
pub fn choose_insert_call(has_max_memory: bool, is_result: bool) -> (r: InsertCall)
    ensures
        r == insert_call_for(has_max_memory, is_result),
{
    if has_max_memory {
        if is_result {
            InsertCall::InsertResultWithMemory
        } else {
            InsertCall::InsertWithMemory
        }
    } else {
        if is_result {
            InsertCall::InsertResult
        } else {
            InsertCall::Insert
        }
    }
}

/// `s` with every space taken out.
pub open spec fn without_spaces(s: Seq<char>) -> Seq<char>
    decreases s.len(),
{
    if s.len() == 0 {
        Seq::empty()
    } else {
        let rest = without_spaces(s.drop_last());
        if s.last() == ' ' {
            rest
        } else {
            rest.push(s.last())
        }
    }
}

/// `s` begins with `prefix`.
pub open spec fn has_prefix(s: Seq<char>, prefix: Seq<char>) -> bool {
    prefix.len() <= s.len() && s.take(prefix.len() as int) == prefix
}

/// The text "Result<".
pub open spec fn result_prefix() -> Seq<char> {
    seq!['R', 'e', 's', 'u', 'l', 't', '<']
}

/// The text "std::result::Result<".
pub open spec fn std_result_prefix() -> Seq<char> {
    seq![
        's', 't', 'd', ':', ':', 'r', 'e', 's', 'u', 'l', 't', ':', ':', 'R', 'e', 's', 'u', 'l', 't',
        '<',
    ]
}

/// A return type, as written, names a `Result`: with its spaces taken out
/// it begins with "Result<" or "std::result::Result<".
pub open spec fn names_result(type_text: Seq<char>) -> bool {
    let t = without_spaces(type_text);
    has_prefix(t, result_prefix()) || has_prefix(t, std_result_prefix())
}

/// Whether `s` begins with `prefix`.
fn starts_with(s: &Vec<char>, prefix: &Vec<char>) -> (r: bool)
    ensures
        r == has_prefix(s@, prefix@),
{
    if prefix.len() > s.len() {
        return false;
    }
    let mut i: usize = 0;
    while i < prefix.len()
        invariant
            prefix@.len() <= s@.len(),
            0 <= i <= prefix@.len(),
            forall|j: int| 0 <= j < i ==> s@[j] == prefix@[j],
        decreases prefix@.len() - i,
    {
        if s[i] != prefix[i] {
            assert(s@.take(prefix@.len() as int)[i as int] != prefix@[i as int]);
            return false;
        }
        i = i + 1;
    }
    assert(s@.take(prefix@.len() as int) =~= prefix@);
    true
}

/// Whether a return type, as written, names a `Result`.
pub fn is_result_type(type_text: &str) -> (r: bool)
    ensures
        r == names_result(type_text@),
{
    let n = type_text.unicode_len();
    let mut compact: Vec<char> = Vec::new();
    let mut i: usize = 0;
    while i < n
        invariant
            n == type_text@.len(),
            0 <= i <= n,
            compact@ == without_spaces(type_text@.take(i as int)),
        decreases n - i,
    {
        let c = type_text.get_char(i);
        proof {
            assert(type_text@.take(i + 1).drop_last() =~= type_text@.take(i as int));
            assert(type_text@.take(i + 1).last() == c);
        }
        if c != ' ' {
            compact.push(c);
        }
        i = i + 1;
    }
    assert(type_text@.take(n as int) =~= type_text@);
    let short: Vec<char> = vec!['R', 'e', 's', 'u', 'l', 't', '<'];
    let long: Vec<char> = vec![
        's', 't', 'd', ':', ':', 'r', 'e', 's', 'u', 'l', 't', ':', ':', 'R', 'e', 's', 'u', 'l', 't',
        '<',
    ];
    assert(short@ =~= result_prefix());
    assert(long@ =~= std_result_prefix());
    starts_with(&compact, &short) || starts_with(&compact, &long)
}

} // verus!

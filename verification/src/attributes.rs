use vstd::prelude::*;
use vstd::string::StrSliceExecFns;
use vstd::string::StringExecFns;

use crate::decimal::{parse_unsigned, parse_unsigned_range, parsed_unsigned};
use crate::keys::CacheScope;
use crate::text::str_eq;

verus! {

/// The policy names that the caching attributes accept, in order.
pub open spec fn policy_names() -> Seq<Seq<char>> {
    seq!["fifo"@, "lru"@, "lfu"@, "arc"@, "random"@, "tlru"@, "w_tinylfu"@]
}

/// The names, each in double quotes, joined by `sep`.
pub open spec fn quoted_join(names: Seq<Seq<char>>, sep: Seq<char>) -> Seq<char>
    decreases names.len(),
{
    if names.len() == 0 {
        Seq::empty()
    } else if names.len() == 1 {
        seq!['"'] + names[0] + seq!['"']
    } else {
        quoted_join(names.drop_last(), sep) + sep + seq!['"'] + names.last() + seq!['"']
    }
}

/// The accepted policy names, each in double quotes, joined by `separator`.
pub fn policies_str_with_separator(separator: &str) -> (r: String)
    ensures
        r@ == quoted_join(policy_names(), separator@),
{
    let names: Vec<&str> = vec!["fifo", "lru", "lfu", "arc", "random", "tlru", "w_tinylfu"];
    assert(names@.map_values(|s: &str| s@) =~= policy_names());
    let mut r = String::new();
    let mut i: usize = 0;
    while i < names.len()
        invariant
            0 <= i <= names@.len(),
            names@.map_values(|s: &str| s@) == policy_names(),
            r@ == quoted_join(policy_names().take(i as int), separator@),
        decreases names@.len() - i,
    {
        proof {
            let ns = policy_names();
            assert(ns.take(i + 1).drop_last() =~= ns.take(i as int));
            assert(ns.take(i + 1).last() == names@[i as int]@);
            if i == 0 {
                assert(ns.take(1)[0] == names@[0]@);
            }
        }
        if i > 0 {
            r.append(separator);
        }
        r.append("\"");
        r.append(names[i]);
        r.append("\"");
        proof {
            reveal_strlit("\"");
        }
        i = i + 1;
    }
    assert(policy_names().take(names@.len() as int) =~= policy_names());
    r
}


/// Why an attribute's value was refused.
#[derive(Clone, Copy, Debug, PartialEq, Eq, Structural)]
pub enum AttrFault {
    /// The value is not a literal (or, where one is wanted, not an array or
    /// a path).
    BadSyntax,
    /// The value is a literal of the wrong kind.
    BadLiteral,
    /// An integer literal that does not fit the setting's type.
    BadNumber,
    /// Zero where a positive number is wanted.
    NotPositive,
    /// A policy name that is not one of the accepted names.
    UnknownPolicy,
    /// A scope other than "global" and "thread".
    UnknownScope,
    /// An array with an element that is not a string literal.
    NonStringElement,
    /// Not an array where a list of strings is wanted.
    NotArray,
    /// A memory size whose number before the unit does not parse.
    InvalidNumber,
    /// A memory size with no unit that does not parse as a number.
    InvalidFormat,
    /// A memory size whose byte count does not fit in `usize`.
    TooLarge,
    /// An attribute name that is not known (or not a plain identifier).
    UnknownAttribute,
}

/// A setting that was given a valid value, was given an invalid one (which
/// fails the expansion), or was not given.
#[derive(Clone, Copy, Debug, PartialEq, Eq, Structural)]
pub enum Setting<T> {
    Unset,
    Given(T),
    Invalid(AttrFault),
}

/// The right-hand side of one `name = value` attribute, as far as the rules
/// read it.
#[derive(Clone, Debug)]
pub enum AttrValue {
    /// A string literal, by its value.
    Str(String),
    /// An integer literal, by its base-10 digits.
    Int(String),
    /// A floating-point literal, by its base-10 digits.
    Float(String),
    /// A literal of another kind.
    OtherLit,
    /// An array: for each element, the value of a string literal, or `None`
    /// for any other element.
    Array(Vec<Option<String>>),
    /// A path such as `my_module::is_stale`, as written.
    Path(String),
    /// Any other expression.
    OtherExpr,
}

/// The mathematical form of an attribute value.
#[verifier::ext_equal]
pub enum ValueView {
    Str(Seq<char>),
    Int(Seq<char>),
    Float(Seq<char>),
    OtherLit,
    Array(Seq<Option<Seq<char>>>),
    Path(Seq<char>),
    OtherExpr,
}

/// The characters of an optional string.
pub open spec fn opt_view(o: Option<String>) -> Option<Seq<char>> {
    match o {
        Some(s) => Some(s@),
        None => None,
    }
}

/// The characters of each string of a sequence.
pub open spec fn strings_view(v: Seq<String>) -> Seq<Seq<char>> {
    v.map_values(|s: String| s@)
}

impl View for AttrValue {
    type V = ValueView;

    open spec fn view(&self) -> ValueView {
        match self {
            AttrValue::Str(s) => ValueView::Str(s@),
            AttrValue::Int(s) => ValueView::Int(s@),
            AttrValue::Float(s) => ValueView::Float(s@),
            AttrValue::OtherLit => ValueView::OtherLit,
            AttrValue::Array(v) => ValueView::Array(v@.map_values(|o: Option<String>| opt_view(o))),
            AttrValue::Path(s) => ValueView::Path(s@),
            AttrValue::OtherExpr => ValueView::OtherExpr,
        }
    }
}

/// A copy of an attribute value.
pub fn copy_value(v: &AttrValue) -> (r: AttrValue)
    ensures
        r@ == v@,
{
    match v {
        AttrValue::Str(s) => AttrValue::Str(s.clone()),
        AttrValue::Int(s) => AttrValue::Int(s.clone()),
        AttrValue::Float(s) => AttrValue::Float(s.clone()),
        AttrValue::OtherLit => AttrValue::OtherLit,
        AttrValue::Array(elems) => {
            let mut out: Vec<Option<String>> = Vec::new();
            let mut i: usize = 0;
            while i < elems.len()
                invariant
                    0 <= i <= elems@.len(),
                    out@.len() == i,
                    forall|j: int| 0 <= j < i ==> opt_view(#[trigger] out@[j]) == opt_view(elems@[j]),
                decreases elems@.len() - i,
            {
                let e = match &elems[i] {
                    Some(s) => Some(s.clone()),
                    None => None,
                };
                out.push(e);
                i = i + 1;
            }
            assert(out@.map_values(|o: Option<String>| opt_view(o)) =~= elems@.map_values(
                |o: Option<String>| opt_view(o),
            ));
            AttrValue::Array(out)
        },
        AttrValue::Path(s) => AttrValue::Path(s.clone()),
        AttrValue::OtherExpr => AttrValue::OtherExpr,
    }
}

/// One `name = value` attribute; `name` is `None` when the left-hand side is
/// not a single identifier.
#[derive(Clone, Debug)]
pub struct Attr {
    pub name: Option<String>,
    pub value: AttrValue,
}

/// A value is a literal.
pub open spec fn is_literal(v: ValueView) -> bool {
    match v {
        ValueView::Str(_) | ValueView::Int(_) | ValueView::Float(_) | ValueView::OtherLit => true,
        _ => false,
    }
}

/// The setting an integer attribute gets: an integer literal that fits
/// under `max` (and is positive where `positive` asks for it) is set.
pub open spec fn integer_setting(v: ValueView, max: nat, positive: bool) -> Setting<nat> {
    match v {
        ValueView::Int(d) => match parsed_unsigned(d, max) {
            Some(n) => if positive && n == 0 {
                Setting::Invalid(AttrFault::NotPositive)
            } else {
                Setting::Given(n)
            },
            None => Setting::Invalid(AttrFault::BadNumber),
        },
        _ => if is_literal(v) {
            Setting::Invalid(AttrFault::BadLiteral)
        } else {
            Setting::Invalid(AttrFault::BadSyntax)
        },
    }
}

/// `integer_setting` for a `usize` setting.
pub open spec fn usize_setting(v: ValueView, positive: bool) -> Setting<usize> {
    match integer_setting(v, usize::MAX as nat, positive) {
        Setting::Given(n) => Setting::Given(n as usize),
        Setting::Invalid(f) => Setting::Invalid(f),
        Setting::Unset => Setting::Unset,
    }
}

/// `integer_setting` for a `u64` setting.
pub open spec fn u64_setting(v: ValueView, positive: bool) -> Setting<u64> {
    match integer_setting(v, u64::MAX as nat, positive) {
        Setting::Given(n) => Setting::Given(n as u64),
        Setting::Invalid(f) => Setting::Invalid(f),
        Setting::Unset => Setting::Unset,
    }
}

/// Parses an integer literal under `max`; zero is refused where `positive`.
fn integer_attribute(v: &AttrValue, max: u64, positive: bool) -> (r: Setting<u64>)
    ensures
        match integer_setting(v@, max as nat, positive) {
            Setting::Given(n) => r == Setting::Given(n as u64) && n <= max,
            Setting::Invalid(f) => r == Setting::<u64>::Invalid(f),
            Setting::Unset => false,
        },
{
    match v {
        AttrValue::Int(d) => match parse_unsigned(d.as_str(), max) {
            Some(n) => if positive && n == 0 {
                Setting::Invalid(AttrFault::NotPositive)
            } else {
                Setting::Given(n)
            },
            None => Setting::Invalid(AttrFault::BadNumber),
        },
        AttrValue::Str(_) | AttrValue::Float(_) | AttrValue::OtherLit => Setting::Invalid(
            AttrFault::BadLiteral,
        ),
        _ => Setting::Invalid(AttrFault::BadSyntax),
    }
}

/// Reads an integer attribute into a `usize` setting.
fn usize_attribute(v: &AttrValue, positive: bool) -> (r: Setting<usize>)
    ensures
        r == usize_setting(v@, positive),
{
    match integer_attribute(v, usize::MAX as u64, positive) {
        Setting::Given(n) => Setting::Given(n as usize),
        Setting::Invalid(f) => Setting::Invalid(f),
        Setting::Unset => Setting::Unset,
    }
}

/// Reads an integer attribute into a `u64` setting.
fn u64_attribute(v: &AttrValue, positive: bool) -> (r: Setting<u64>)
    ensures
        r == u64_setting(v@, positive),
{
    integer_attribute(v, u64::MAX, positive)
}

/// `limit = <integer>`: the largest number of entries.
pub fn parse_limit_attribute(v: &AttrValue) -> (r: Setting<usize>)
    ensures
        r == usize_setting(v@, false),
{
    usize_attribute(v, false)
}

/// `ttl = <integer>`: the time-to-live in seconds.
pub fn parse_ttl_attribute(v: &AttrValue) -> (r: Setting<u64>)
    ensures
        r == u64_setting(v@, false),
{
    u64_attribute(v, false)
}

/// `sketch_width = <integer>`: a positive sketch width.
pub fn parse_sketch_width_attribute(v: &AttrValue) -> (r: Setting<usize>)
    ensures
        r == usize_setting(v@, true),
{
    usize_attribute(v, true)
}

/// `sketch_depth = <integer>`: a positive sketch depth.
pub fn parse_sketch_depth_attribute(v: &AttrValue) -> (r: Setting<usize>)
    ensures
        r == usize_setting(v@, true),
{
    usize_attribute(v, true)
}

/// `decay_interval = <integer>`: a positive number of operations.
pub fn parse_decay_interval_attribute(v: &AttrValue) -> (r: Setting<u64>)
    ensures
        r == u64_setting(v@, true),
{
    u64_attribute(v, true)
}


/// The Unicode upper-case form of a string, as `str::to_uppercase` computes it.
pub uninterp spec fn str_to_uppercase(s: Seq<char>) -> Seq<char>;

/// `str::to_uppercase`: the result holds the upper-case form of `s`.
#[verifier::external_body]
fn to_uppercase(s: &str) -> (r: String)
    ensures
        r@ == str_to_uppercase(s@),
{
    s.to_uppercase()
}

/// `s` ends with `suffix`.
pub open spec fn ends_with(s: Seq<char>, suffix: Seq<char>) -> bool {
    suffix.len() <= s.len() && s.subrange(s.len() - suffix.len(), s.len() as int) == suffix
}

/// `s` with every trailing repetition of a non-empty `suffix` taken off, as
/// `str::trim_end_matches` does.
pub open spec fn trim_end_all(s: Seq<char>, suffix: Seq<char>) -> Seq<char>
    decreases s.len(),
{
    if suffix.len() > 0 && ends_with(s, suffix) {
        trim_end_all(s.subrange(0, s.len() - suffix.len()), suffix)
    } else {
        s
    }
}

/// The number of bytes a memory size writes, read from its upper-cased
/// text: a number followed by "GB", "MB" or "KB" (repeated units are all
/// taken off) counts in gibi-, mebi- or kibibytes, a bare number in bytes.
pub open spec fn memory_size(upper: Seq<char>) -> Result<usize, AttrFault> {
    let gb = seq!['G', 'B'];
    let mb = seq!['M', 'B'];
    let kb = seq!['K', 'B'];
    let (body, unit, fault) = if ends_with(upper, gb) {
        (trim_end_all(upper, gb), 1073741824nat, AttrFault::InvalidNumber)
    } else if ends_with(upper, mb) {
        (trim_end_all(upper, mb), 1048576nat, AttrFault::InvalidNumber)
    } else if ends_with(upper, kb) {
        (trim_end_all(upper, kb), 1024nat, AttrFault::InvalidNumber)
    } else {
        (upper, 1nat, AttrFault::InvalidFormat)
    };
    match parsed_unsigned(body, usize::MAX as nat) {
        Some(n) => if n * unit <= usize::MAX {
            Ok((n * unit) as usize)
        } else {
            Err(AttrFault::TooLarge)
        },
        None => Err(fault),
    }
}

/// A memory size written as a decimal number followed by one unit counts
/// that many units: "KB" is 1024 bytes, "MB" 1024 KB, "GB" 1024 MB, no unit
/// one byte; a count that does not fit in `usize` is refused.
pub proof fn law_memory_size_units(digits: Seq<char>, unit: Seq<char>)
    requires
        digits.len() > 0,
        crate::decimal::all_digits(digits),
        unit == seq!['K', 'B'] || unit == seq!['M', 'B'] || unit == seq!['G', 'B'] || unit
            == Seq::<char>::empty(),
    ensures
        ({
            let factor: nat = if unit == seq!['K', 'B'] {
                1024
            } else if unit == seq!['M', 'B'] {
                1048576
            } else if unit == seq!['G', 'B'] {
                1073741824
            } else {
                1
            };
            let n = crate::decimal::digits_value(digits);
            if n * factor <= usize::MAX {
                memory_size(digits + unit) == Ok::<usize, AttrFault>((n * factor) as usize)
            } else {
                memory_size(digits + unit) is Err
            }
        }),
{
    let u = digits + unit;
    let last = digits[digits.len() - 1];
    assert(crate::decimal::is_digit(last));
    if unit.len() == 0 {
        assert(u =~= digits);
        if u.len() >= 2 {
            assert(u.subrange(u.len() - 2, u.len() as int)[1] == last);
        }
        assert(!ends_with(u, seq!['G', 'B']));
        assert(!ends_with(u, seq!['M', 'B']));
        assert(!ends_with(u, seq!['K', 'B']));
        assert(crate::decimal::unsigned_body(u) =~= u);
    } else {
        assert(u.subrange(u.len() - 2, u.len() as int) =~= unit);
        assert(u.subrange(0, u.len() - 2) =~= digits);
        assert(u.subrange(u.len() - 2, u.len() as int)[0] == unit[0]);
        let d = digits;
        assert(!ends_with(d, unit)) by {
            if d.len() >= 2 {
                assert(d.subrange(d.len() - 2, d.len() as int)[1] == last);
            }
        }
        assert(trim_end_all(d, unit) == d);
        assert(trim_end_all(u, unit) == trim_end_all(d, unit));
        assert(crate::decimal::unsigned_body(d) =~= d);
    }
}

/// Whether `s` ends with the two characters `a` and `b`.
fn ends_with_pair(s: &str, n: usize, a: char, b: char) -> (r: bool)
    requires
        n <= s@.len(),
    ensures
        r == ends_with(s@.subrange(0, n as int), seq![a, b]),
{
    let ghost t = s@.subrange(0, n as int);
    if n < 2 {
        return false;
    }
    let r = s.get_char(n - 2) == a && s.get_char(n - 1) == b;
    proof {
        if r {
            assert(t.subrange(t.len() - 2, t.len() as int) =~= seq![a, b]);
        } else {
            assert(t.subrange(t.len() - 2, t.len() as int)[0] == t[n - 2]);
            assert(t.subrange(t.len() - 2, t.len() as int)[1] == t[n - 1]);
        }
    }
    r
}

/// The length of `s` once every trailing repetition of the two characters
/// `a` and `b` is taken off.
fn trimmed_len(s: &str, a: char, b: char) -> (end: usize)
    ensures
        end <= s@.len(),
        s@.subrange(0, end as int) == trim_end_all(s@, seq![a, b]),
{
    let n = s.unicode_len();
    let mut end = n;
    assert(s@.subrange(0, n as int) =~= s@);
    while ends_with_pair(s, end, a, b)
        invariant
            end <= s@.len(),
            trim_end_all(s@.subrange(0, end as int), seq![a, b]) == trim_end_all(s@, seq![a, b]),
        decreases end,
    {
        let ghost t = s@.subrange(0, end as int);
        assert(t.subrange(0, t.len() - 2) =~= s@.subrange(0, end - 2));
        end = end - 2;
    }
    end
}

/// Reads an upper-cased memory size such as "100MB", "1GB", "500KB" or
/// "2048" as a number of bytes.
pub fn parse_memory_size(upper: &str) -> (r: Result<usize, AttrFault>)
    ensures
        r == memory_size(upper@),
{
    let n = upper.unicode_len();
    let ghost u = upper@;
    assert(u.subrange(0, n as int) =~= u);
    let (end, unit, fault): (usize, u64, AttrFault) = if ends_with_pair(upper, n, 'G', 'B') {
        (trimmed_len(upper, 'G', 'B'), 1073741824, AttrFault::InvalidNumber)
    } else if ends_with_pair(upper, n, 'M', 'B') {
        (trimmed_len(upper, 'M', 'B'), 1048576, AttrFault::InvalidNumber)
    } else if ends_with_pair(upper, n, 'K', 'B') {
        (trimmed_len(upper, 'K', 'B'), 1024, AttrFault::InvalidNumber)
    } else {
        (n, 1, AttrFault::InvalidFormat)
    };
    match parse_unsigned_range(upper, 0, end, usize::MAX as u64) {
        Some(v) => {
            assert((v as u128) * (unit as u128) <= 0xffff_ffff_ffff_ffffu128 * 0x4000_0000u128)
                by (nonlinear_arith)
                requires
                    v <= 0xffff_ffff_ffff_ffffu64,
                    unit <= 0x4000_0000u64,
            ;
            let bytes: u128 = (v as u128) * (unit as u128);
            if bytes <= usize::MAX as u128 {
                Ok(bytes as usize)
            } else {
                Err(AttrFault::TooLarge)
            }
        },
        None => Err(fault),
    }
}

/// The setting `max_memory` gets: a string is read as a memory size, case
/// aside; an integer literal counts bytes.
pub open spec fn max_memory_setting(v: ValueView) -> Setting<usize> {
    match v {
        ValueView::Str(s) => match memory_size(str_to_uppercase(s)) {
            Ok(n) => Setting::Given(n),
            Err(f) => Setting::Invalid(f),
        },
        _ => usize_setting(v, false),
    }
}

/// `max_memory = "100MB"` (or "1GB", "500KB", a bare number of bytes, in
/// any case) or `max_memory = <integer>`: the memory limit in bytes.
pub fn parse_max_memory_attribute(v: &AttrValue) -> (r: Setting<usize>)
    ensures
        r == max_memory_setting(v@),
{
    match v {
        AttrValue::Str(s) => {
            let upper = to_uppercase(s.as_str());
            match parse_memory_size(upper.as_str()) {
                Ok(n) => Setting::Given(n),
                Err(f) => Setting::Invalid(f),
            }
        },
        _ => usize_attribute(v, false),
    }
}

/// The policy name a `policy` attribute gives: one of the accepted names.
pub open spec fn policy_choice(v: ValueView) -> Result<Seq<char>, AttrFault> {
    match v {
        ValueView::Str(s) => if policy_names().contains(s) {
            Ok(s)
        } else {
            Err(AttrFault::UnknownPolicy)
        },
        _ => if is_literal(v) {
            Err(AttrFault::BadLiteral)
        } else {
            Err(AttrFault::BadSyntax)
        },
    }
}

/// `policy = "<name>"`: one of "fifo", "lru", "lfu", "arc", "random",
/// "tlru" and "w_tinylfu".
pub fn parse_policy_attribute(v: &AttrValue) -> (r: Result<String, AttrFault>)
    ensures
        match r {
            Ok(s) => policy_choice(v@) == Ok::<Seq<char>, AttrFault>(s@),
            Err(f) => policy_choice(v@) == Err::<Seq<char>, AttrFault>(f),
        },
{
    match v {
        AttrValue::Str(s) => {
            let t = s.as_str();
            let ok = str_eq(t, "fifo") || str_eq(t, "lru") || str_eq(t, "lfu") || str_eq(t, "arc")
                || str_eq(t, "random") || str_eq(t, "tlru") || str_eq(t, "w_tinylfu");
            proof {
                let ns = policy_names();
                if ok {
                    if t@ == "fifo"@ { assert(ns[0] == t@); }
                    if t@ == "lru"@ { assert(ns[1] == t@); }
                    if t@ == "lfu"@ { assert(ns[2] == t@); }
                    if t@ == "arc"@ { assert(ns[3] == t@); }
                    if t@ == "random"@ { assert(ns[4] == t@); }
                    if t@ == "tlru"@ { assert(ns[5] == t@); }
                    if t@ == "w_tinylfu"@ { assert(ns[6] == t@); }
                } else {
                    assert forall|i: int| 0 <= i < ns.len() implies ns[i] != t@ by {
                        assert(ns[i] == "fifo"@ || ns[i] == "lru"@ || ns[i] == "lfu"@ || ns[i] == "arc"@
                            || ns[i] == "random"@ || ns[i] == "tlru"@ || ns[i] == "w_tinylfu"@);
                    }
                }
            }
            if ok {
                Ok(s.clone())
            } else {
                Err(AttrFault::UnknownPolicy)
            }
        },
        AttrValue::Int(_) | AttrValue::Float(_) | AttrValue::OtherLit => Err(AttrFault::BadLiteral),
        _ => Err(AttrFault::BadSyntax),
    }
}

/// The scope a `scope` attribute gives.
pub open spec fn scope_choice(v: ValueView) -> Result<CacheScope, AttrFault> {
    match v {
        ValueView::Str(s) => if s == "global"@ {
            Ok(CacheScope::Global)
        } else if s == "thread"@ {
            Ok(CacheScope::ThreadLocal)
        } else {
            Err(AttrFault::UnknownScope)
        },
        _ => if is_literal(v) {
            Err(AttrFault::BadLiteral)
        } else {
            Err(AttrFault::BadSyntax)
        },
    }
}

/// `scope = "global"` or `scope = "thread"`.
pub fn parse_scope_attribute(v: &AttrValue) -> (r: Result<CacheScope, AttrFault>)
    ensures
        r == scope_choice(v@),
{
    match v {
        AttrValue::Str(s) => if str_eq(s.as_str(), "global") {
            Ok(CacheScope::Global)
        } else if str_eq(s.as_str(), "thread") {
            Ok(CacheScope::ThreadLocal)
        } else {
            Err(AttrFault::UnknownScope)
        },
        AttrValue::Int(_) | AttrValue::Float(_) | AttrValue::OtherLit => Err(AttrFault::BadLiteral),
        _ => Err(AttrFault::BadSyntax),
    }
}

/// The name a `name` attribute gives: a string literal's value; anything
/// else gives none.
pub open spec fn name_choice(v: ValueView) -> Option<Seq<char>> {
    match v {
        ValueView::Str(s) => Some(s),
        _ => None,
    }
}

/// `name = "<name>"`: a custom cache name.
pub fn parse_name_attribute(v: &AttrValue) -> (r: Option<String>)
    ensures
        opt_view(r) == name_choice(v@),
{
    match v {
        AttrValue::Str(s) => Some(s.clone()),
        _ => None,
    }
}

/// The strings an array attribute gives: every element must be a string
/// literal.
pub open spec fn string_array(v: ValueView) -> Result<Seq<Seq<char>>, AttrFault> {
    match v {
        ValueView::Array(elems) => if forall|i: int| 0 <= i < elems.len() ==> #[trigger] elems[i] is Some {
            Ok(elems.map_values(|o: Option<Seq<char>>| o->0))
        } else {
            Err(AttrFault::NonStringElement)
        },
        _ => Err(AttrFault::NotArray),
    }
}

/// `tags = ["a", "b"]` (also `events`, `dependencies`): a list of strings.
pub fn parse_string_array_attribute(v: &AttrValue) -> (r: Result<Vec<String>, AttrFault>)
    ensures
        match r {
            Ok(list) => string_array(v@) == Ok::<Seq<Seq<char>>, AttrFault>(strings_view(list@)),
            Err(f) => string_array(v@) == Err::<Seq<Seq<char>>, AttrFault>(f),
        },
{
    match v {
        AttrValue::Array(elems) => {
            let ghost ev = elems@.map_values(|o: Option<String>| opt_view(o));
            assert(v@ == ValueView::Array(ev));
            let mut strings: Vec<String> = Vec::new();
            let mut i: usize = 0;
            while i < elems.len()
                invariant
                    0 <= i <= elems@.len(),
                    ev == elems@.map_values(|o: Option<String>| opt_view(o)),
                    v@ == ValueView::Array(ev),
                    strings@.len() == i,
                    forall|j: int| 0 <= j < i ==> #[trigger] ev[j] is Some,
                    forall|j: int| 0 <= j < i ==> #[trigger] strings@[j]@ == ev[j]->0,
                decreases elems@.len() - i,
            {
                match &elems[i] {
                    Some(s) => {
                        strings.push(s.clone());
                    },
                    None => {
                        proof {
                            assert(ev[i as int] is None);
                            match v@ {
                                ValueView::Array(e2) => {

                                    assert(!(forall|j: int| 0 <= j < e2.len() ==> #[trigger] e2[j] is Some));
                                },
                                _ => {},
                            }
                        }
                        return Err(AttrFault::NonStringElement);
                    },
                }
                i = i + 1;
            }
            assert(strings_view(strings@) =~= ev.map_values(|o: Option<Seq<char>>| o->0));
            Ok(strings)
        },
        _ => Err(AttrFault::NotArray),
    }
}

/// The path a function-valued attribute gives.
pub open spec fn path_choice(v: ValueView) -> Result<Seq<char>, AttrFault> {
    match v {
        ValueView::Path(p) => Ok(p),
        _ => Err(AttrFault::BadSyntax),
    }
}

/// Reads a path-valued attribute.
fn path_attribute(v: &AttrValue) -> (r: Result<String, AttrFault>)
    ensures
        match r {
            Ok(p) => path_choice(v@) == Ok::<Seq<char>, AttrFault>(p@),
            Err(f) => path_choice(v@) == Err::<Seq<char>, AttrFault>(f),
        },
{
    match v {
        AttrValue::Path(p) => Ok(p.clone()),
        _ => Err(AttrFault::BadSyntax),
    }
}

/// `invalidate_on = <function path>`.
pub fn parse_invalidate_on_attribute(v: &AttrValue) -> (r: Result<String, AttrFault>)
    ensures
        match r {
            Ok(p) => path_choice(v@) == Ok::<Seq<char>, AttrFault>(p@),
            Err(f) => path_choice(v@) == Err::<Seq<char>, AttrFault>(f),
        },
{
    path_attribute(v)
}

/// `cache_if = <function path>`.
pub fn parse_cache_if_attribute(v: &AttrValue) -> (r: Result<String, AttrFault>)
    ensures
        match r {
            Ok(p) => path_choice(v@) == Ok::<Seq<char>, AttrFault>(p@),
            Err(f) => path_choice(v@) == Err::<Seq<char>, AttrFault>(f),
        },
{
    path_attribute(v)
}


/// The settings that a list of caching attributes gives. Settings that are
/// not given keep their defaults: policy "fifo", global scope, nothing else.
/// The two float-valued settings are kept as written; their range is
/// checked where floating point is at hand.
pub struct CacheAttributes {
    pub limit: Setting<usize>,
    pub policy: String,
    pub ttl: Setting<u64>,
    pub scope: CacheScope,
    pub custom_name: Option<String>,
    pub max_memory: Setting<usize>,
    pub tags: Vec<String>,
    pub events: Vec<String>,
    pub dependencies: Vec<String>,
    pub invalidate_on: Option<String>,
    pub cache_if: Option<String>,
    pub frequency_weight: Option<AttrValue>,
    pub window_ratio: Option<AttrValue>,
    pub sketch_width: Setting<usize>,
    pub sketch_depth: Setting<usize>,
    pub decay_interval: Setting<u64>,
}

/// The mathematical form of `CacheAttributes`.
#[verifier::ext_equal]
pub struct AttributesView {
    pub limit: Setting<usize>,
    pub policy: Seq<char>,
    pub ttl: Setting<u64>,
    pub scope: CacheScope,
    pub custom_name: Option<Seq<char>>,
    pub max_memory: Setting<usize>,
    pub tags: Seq<Seq<char>>,
    pub events: Seq<Seq<char>>,
    pub dependencies: Seq<Seq<char>>,
    pub invalidate_on: Option<Seq<char>>,
    pub cache_if: Option<Seq<char>>,
    pub frequency_weight: Option<ValueView>,
    pub window_ratio: Option<ValueView>,
    pub sketch_width: Setting<usize>,
    pub sketch_depth: Setting<usize>,
    pub decay_interval: Setting<u64>,
}

/// The form of an optional attribute value.
pub open spec fn opt_value_view(o: Option<AttrValue>) -> Option<ValueView> {
    match o {
        Some(v) => Some(v@),
        None => None,
    }
}

impl View for CacheAttributes {
    type V = AttributesView;

    open spec fn view(&self) -> AttributesView {
        AttributesView {
            limit: self.limit,
            policy: self.policy@,
            ttl: self.ttl,
            scope: self.scope,
            custom_name: opt_view(self.custom_name),
            max_memory: self.max_memory,
            tags: strings_view(self.tags@),
            events: strings_view(self.events@),
            dependencies: strings_view(self.dependencies@),
            invalidate_on: opt_view(self.invalidate_on),
            cache_if: opt_view(self.cache_if),
            frequency_weight: opt_value_view(self.frequency_weight),
            window_ratio: opt_value_view(self.window_ratio),
            sketch_width: self.sketch_width,
            sketch_depth: self.sketch_depth,
            decay_interval: self.decay_interval,
        }
    }
}

/// The settings before any attribute is read.
pub open spec fn default_attributes() -> AttributesView {
    AttributesView {
        limit: Setting::Unset,
        policy: "fifo"@,
        ttl: Setting::Unset,
        scope: CacheScope::Global,
        custom_name: None,
        max_memory: Setting::Unset,
        tags: Seq::empty(),
        events: Seq::empty(),
        dependencies: Seq::empty(),
        invalidate_on: None,
        cache_if: None,
        frequency_weight: None,
        window_ratio: None,
        sketch_width: Setting::Unset,
        sketch_depth: Setting::Unset,
        decay_interval: Setting::Unset,
    }
}

/// The settings after reading one more attribute `name = v`, or why it is
/// refused. `scope` is known only where `with_scope` holds.
pub open spec fn attr_step(
    st: AttributesView,
    name: Option<Seq<char>>,
    v: ValueView,
    with_scope: bool,
) -> Result<AttributesView, AttrFault> {
    match name {
        None => Err(AttrFault::UnknownAttribute),
        Some(n) => if n == "limit"@ {
            Ok(AttributesView { limit: usize_setting(v, false), ..st })
        } else if n == "policy"@ {
            match policy_choice(v) {
                Ok(p) => Ok(AttributesView { policy: p, ..st }),
                Err(f) => Err(f),
            }
        } else if n == "ttl"@ {
            Ok(AttributesView { ttl: u64_setting(v, false), ..st })
        } else if with_scope && n == "scope"@ {
            match scope_choice(v) {
                Ok(sc) => Ok(AttributesView { scope: sc, ..st }),
                Err(f) => Err(f),
            }
        } else if n == "name"@ {
            Ok(AttributesView { custom_name: name_choice(v), ..st })
        } else if n == "max_memory"@ {
            Ok(AttributesView { max_memory: max_memory_setting(v), ..st })
        } else if n == "tags"@ {
            match string_array(v) {
                Ok(l) => Ok(AttributesView { tags: l, ..st }),
                Err(f) => Err(f),
            }
        } else if n == "events"@ {
            match string_array(v) {
                Ok(l) => Ok(AttributesView { events: l, ..st }),
                Err(f) => Err(f),
            }
        } else if n == "dependencies"@ {
            match string_array(v) {
                Ok(l) => Ok(AttributesView { dependencies: l, ..st }),
                Err(f) => Err(f),
            }
        } else if n == "invalidate_on"@ {
            match path_choice(v) {
                Ok(p) => Ok(AttributesView { invalidate_on: Some(p), ..st }),
                Err(f) => Err(f),
            }
        } else if n == "cache_if"@ {
            match path_choice(v) {
                Ok(p) => Ok(AttributesView { cache_if: Some(p), ..st }),
                Err(f) => Err(f),
            }
        } else if n == "frequency_weight"@ {
            Ok(AttributesView { frequency_weight: Some(v), ..st })
        } else if n == "window_ratio"@ {
            Ok(AttributesView { window_ratio: Some(v), ..st })
        } else if n == "sketch_width"@ {
            Ok(AttributesView { sketch_width: usize_setting(v, true), ..st })
        } else if n == "sketch_depth"@ {
            Ok(AttributesView { sketch_depth: usize_setting(v, true), ..st })
        } else if n == "decay_interval"@ {
            Ok(AttributesView { decay_interval: u64_setting(v, true), ..st })
        } else {
            Err(AttrFault::UnknownAttribute)
        },
    }
}

/// `b` agrees with `a` on every setting but the one that an attribute
/// named `n` sets.
pub open spec fn same_but(a: AttributesView, b: AttributesView, n: Seq<char>) -> bool {
    &&& n != "limit"@ ==> a.limit == b.limit
    &&& n != "policy"@ ==> a.policy == b.policy
    &&& n != "ttl"@ ==> a.ttl == b.ttl
    &&& n != "scope"@ ==> a.scope == b.scope
    &&& n != "name"@ ==> a.custom_name == b.custom_name
    &&& n != "max_memory"@ ==> a.max_memory == b.max_memory
    &&& n != "tags"@ ==> a.tags == b.tags
    &&& n != "events"@ ==> a.events == b.events
    &&& n != "dependencies"@ ==> a.dependencies == b.dependencies
    &&& n != "invalidate_on"@ ==> a.invalidate_on == b.invalidate_on
    &&& n != "cache_if"@ ==> a.cache_if == b.cache_if
    &&& n != "frequency_weight"@ ==> a.frequency_weight == b.frequency_weight
    &&& n != "window_ratio"@ ==> a.window_ratio == b.window_ratio
    &&& n != "sketch_width"@ ==> a.sketch_width == b.sketch_width
    &&& n != "sketch_depth"@ ==> a.sketch_depth == b.sketch_depth
    &&& n != "decay_interval"@ ==> a.decay_interval == b.decay_interval
}

/// Reading one attribute sets only the setting it names, and sets it to
/// what that attribute's own reader gives; every other setting stays.
pub proof fn law_attribute_sets_only_its_setting(
    st: AttributesView,
    n: Seq<char>,
    v: ValueView,
    with_scope: bool,
)
    ensures
        attr_step(st, Some(n), v, with_scope) matches Ok(r) ==> {
            &&& same_but(st, r, n)
            &&& n == "limit"@ ==> r.limit == usize_setting(v, false)
            &&& n == "policy"@ ==> policy_choice(v) == Ok::<Seq<char>, AttrFault>(r.policy)
            &&& n == "ttl"@ ==> r.ttl == u64_setting(v, false)
            &&& n == "scope"@ ==> scope_choice(v) == Ok::<CacheScope, AttrFault>(r.scope)
            &&& n == "name"@ ==> r.custom_name == name_choice(v)
            &&& n == "max_memory"@ ==> r.max_memory == max_memory_setting(v)
            &&& n == "tags"@ ==> string_array(v) == Ok::<Seq<Seq<char>>, AttrFault>(r.tags)
            &&& n == "events"@ ==> string_array(v) == Ok::<Seq<Seq<char>>, AttrFault>(r.events)
            &&& n == "dependencies"@ ==> string_array(v) == Ok::<Seq<Seq<char>>, AttrFault>(
                r.dependencies,
            )
            &&& n == "invalidate_on"@ ==> (r.invalidate_on matches Some(p) && path_choice(v) == Ok::<
                Seq<char>,
                AttrFault,
            >(p))
            &&& n == "cache_if"@ ==> (r.cache_if matches Some(p) && path_choice(v) == Ok::<
                Seq<char>,
                AttrFault,
            >(p))
            &&& n == "frequency_weight"@ ==> r.frequency_weight == Some(v)
            &&& n == "window_ratio"@ ==> r.window_ratio == Some(v)
            &&& n == "sketch_width"@ ==> r.sketch_width == usize_setting(v, true)
            &&& n == "sketch_depth"@ ==> r.sketch_depth == usize_setting(v, true)
            &&& n == "decay_interval"@ ==> r.decay_interval == u64_setting(v, true)
        },
{
    reveal_strlit("limit");
    reveal_strlit("policy");
    reveal_strlit("ttl");
    reveal_strlit("scope");
    reveal_strlit("name");
    reveal_strlit("max_memory");
    reveal_strlit("tags");
    reveal_strlit("events");
    reveal_strlit("dependencies");
    reveal_strlit("invalidate_on");
    reveal_strlit("cache_if");
    reveal_strlit("frequency_weight");
    reveal_strlit("window_ratio");
    reveal_strlit("sketch_width");
    reveal_strlit("sketch_depth");
    reveal_strlit("decay_interval");
    assert("limit"@.len() == 5);
    assert("policy"@.len() == 6);
    assert("ttl"@.len() == 3);
    assert("scope"@.len() == 5);
    assert("name"@.len() == 4);
    assert("max_memory"@.len() == 10);
    assert("tags"@.len() == 4);
    assert("events"@.len() == 6);
    assert("dependencies"@.len() == 12);
    assert("invalidate_on"@.len() == 13);
    assert("cache_if"@.len() == 8);
    assert("frequency_weight"@.len() == 16);
    assert("window_ratio"@.len() == 12);
    assert("sketch_width"@.len() == 12);
    assert("sketch_depth"@.len() == 12);
    assert("decay_interval"@.len() == 14);
    assert("limit"@[0] != "scope"@[0]);
    assert("policy"@[0] != "events"@[0]);
    assert("name"@[0] != "tags"@[0]);
    assert("dependencies"@[0] != "window_ratio"@[0]);
    assert("dependencies"@[0] != "sketch_width"@[0]);
    assert("dependencies"@[0] != "sketch_depth"@[0]);
    assert("window_ratio"@[0] != "sketch_width"@[0]);
    assert("window_ratio"@[0] != "sketch_depth"@[0]);
    assert("sketch_width"@[7] != "sketch_depth"@[7]);
}

/// The settings after reading the attributes in order, or the position of
/// the first one refused and why.
pub open spec fn read_attributes(
    attrs: Seq<(Option<Seq<char>>, ValueView)>,
    with_scope: bool,
) -> Result<AttributesView, (nat, AttrFault)>
    decreases attrs.len(),
{
    if attrs.len() == 0 {
        Ok(default_attributes())
    } else {
        match read_attributes(attrs.drop_last(), with_scope) {
            Err(e) => Err(e),
            Ok(st) => match attr_step(st, attrs.last().0, attrs.last().1, with_scope) {
                Ok(st2) => Ok(st2),
                Err(f) => Err(((attrs.len() - 1) as nat, f)),
            },
        }
    }
}

/// The form of an attribute.
pub open spec fn attr_view(a: Attr) -> (Option<Seq<char>>, ValueView) {
    (opt_view(a.name), a.value@)
}

/// An attribute refused, by its position in the list and the reason.
#[derive(Clone, Copy, Debug, PartialEq, Eq, Structural)]
pub struct AttrError {
    pub index: usize,
    pub fault: AttrFault,
}

impl CacheAttributes {
    /// The settings before any attribute is read.
    pub fn new() -> (r: Self)
        ensures
            r@ == default_attributes(),
    {
        let r = CacheAttributes {
            limit: Setting::Unset,
            policy: String::from_str("fifo"),
            ttl: Setting::Unset,
            scope: CacheScope::Global,
            custom_name: None,
            max_memory: Setting::Unset,
            tags: Vec::new(),
            events: Vec::new(),
            dependencies: Vec::new(),
            invalidate_on: None,
            cache_if: None,
            frequency_weight: None,
            window_ratio: None,
            sketch_width: Setting::Unset,
            sketch_depth: Setting::Unset,
            decay_interval: Setting::Unset,
        };
        assert(strings_view(r.tags@) =~= Seq::<Seq<char>>::empty());
        assert(strings_view(r.events@) =~= Seq::<Seq<char>>::empty());
        assert(strings_view(r.dependencies@) =~= Seq::<Seq<char>>::empty());
        r
    }

    /// Reads one more attribute into the settings; on a refusal the
    /// settings are left as they were.
    pub fn apply(&mut self, attr: &Attr, with_scope: bool) -> (r: Result<(), AttrFault>)
        ensures
            match attr_step(old(self)@, opt_view(attr.name), attr.value@, with_scope) {
                Ok(st) => r is Ok && final(self)@ == st,
                Err(f) => r == Err::<(), AttrFault>(f) && final(self)@ == old(self)@,
            },
    {
        let n = match &attr.name {
            Some(n) => n.as_str(),
            None => {
                return Err(AttrFault::UnknownAttribute);
            },
        };
        let v = &attr.value;
        if str_eq(n, "limit") {
            self.limit = parse_limit_attribute(v);
        } else if str_eq(n, "policy") {
            self.policy = parse_policy_attribute(v)?;
        } else if str_eq(n, "ttl") {
            self.ttl = parse_ttl_attribute(v);
        } else if with_scope && str_eq(n, "scope") {
            self.scope = parse_scope_attribute(v)?;
        } else if str_eq(n, "name") {
            self.custom_name = parse_name_attribute(v);
        } else if str_eq(n, "max_memory") {
            self.max_memory = parse_max_memory_attribute(v);
        } else if str_eq(n, "tags") {
            self.tags = parse_string_array_attribute(v)?;
        } else if str_eq(n, "events") {
            self.events = parse_string_array_attribute(v)?;
        } else if str_eq(n, "dependencies") {
            self.dependencies = parse_string_array_attribute(v)?;
        } else if str_eq(n, "invalidate_on") {
            self.invalidate_on = Some(parse_invalidate_on_attribute(v)?);
        } else if str_eq(n, "cache_if") {
            self.cache_if = Some(parse_cache_if_attribute(v)?);
        } else if str_eq(n, "frequency_weight") {
            self.frequency_weight = Some(copy_value(v));
        } else if str_eq(n, "window_ratio") {
            self.window_ratio = Some(copy_value(v));
        } else if str_eq(n, "sketch_width") {
            self.sketch_width = parse_sketch_width_attribute(v);
        } else if str_eq(n, "sketch_depth") {
            self.sketch_depth = parse_sketch_depth_attribute(v);
        } else if str_eq(n, "decay_interval") {
            self.decay_interval = parse_decay_interval_attribute(v);
        } else {
            return Err(AttrFault::UnknownAttribute);
        }
        Ok(())
    }
}

/// Reads a list of attributes in order into settings; the first attribute
/// refused ends the reading with its position and the reason.
fn parse_attributes(attrs: &Vec<Attr>, with_scope: bool) -> (r: Result<CacheAttributes, AttrError>)
    ensures
        match read_attributes(attrs@.map_values(|a: Attr| attr_view(a)), with_scope) {
            Ok(st) => r matches Ok(c) && c@ == st,
            Err(e) => r matches Err(err) && err.index == e.0 && err.fault == e.1,
        },
{
    let ghost av = attrs@.map_values(|a: Attr| attr_view(a));
    let mut settings = CacheAttributes::new();
    let mut i: usize = 0;
    while i < attrs.len()
        invariant
            0 <= i <= attrs@.len(),
            av == attrs@.map_values(|a: Attr| attr_view(a)),
            read_attributes(av.take(i as int), with_scope) == Ok::<AttributesView, (nat, AttrFault)>(settings@),
        decreases attrs@.len() - i,
    {
        assert(av.take(i + 1).drop_last() =~= av.take(i as int));
        let r = settings.apply(&attrs[i], with_scope);
        match r {
            Ok(()) => {},
            Err(f) => {
                assert(read_attributes(av.take(i + 1), with_scope) == Err::<AttributesView, (nat, AttrFault)>((i as nat, f)));
                proof {
                    lemma_read_attributes_error_sticks(av, i + 1, with_scope);
                }
                assert(av.take(attrs@.len() as int) =~= av);
                return Err(AttrError { index: i, fault: f });
            },
        }
        i = i + 1;
    }
    assert(av.take(attrs@.len() as int) =~= av);
    Ok(settings)
}

/// Once a prefix of the attributes is refused, the whole list is refused
/// for the same attribute.
pub proof fn lemma_read_attributes_error_sticks(
    attrs: Seq<(Option<Seq<char>>, ValueView)>,
    k: int,
    with_scope: bool,
)
    requires
        0 <= k <= attrs.len(),
        read_attributes(attrs.take(k), with_scope) is Err,
    ensures
        read_attributes(attrs, with_scope) == read_attributes(attrs.take(k), with_scope),
    decreases attrs.len() - k,
{
    if k < attrs.len() {
        assert(attrs.take(k + 1).drop_last() =~= attrs.take(k));
        lemma_read_attributes_error_sticks(attrs, k + 1, with_scope);
    } else {
        assert(attrs.take(k) =~= attrs);
    }
}

/// Reads the attributes of the synchronous caching attribute: `limit`,
/// `policy`, `ttl`, `scope`, `name`, `max_memory`, `tags`, `events`,
/// `dependencies`, `invalidate_on`, `cache_if`, `frequency_weight`,
/// `window_ratio`, `sketch_width`, `sketch_depth` and `decay_interval`.
pub fn parse_sync_attributes(attrs: &Vec<Attr>) -> (r: Result<CacheAttributes, AttrError>)
    ensures
        match read_attributes(attrs@.map_values(|a: Attr| attr_view(a)), true) {
            Ok(st) => r matches Ok(c) && c@ == st,
            Err(e) => r matches Err(err) && err.index == e.0 && err.fault == e.1,
        },
{
    parse_attributes(attrs, true)
}

/// Reads the attributes of the asynchronous caching attribute: those of the
/// synchronous one but `scope`.
pub fn parse_async_attributes(attrs: &Vec<Attr>) -> (r: Result<CacheAttributes, AttrError>)
    ensures
        match read_attributes(attrs@.map_values(|a: Attr| attr_view(a)), false) {
            Ok(st) => r matches Ok(c) && c@ == st,
            Err(e) => r matches Err(err) && err.index == e.0 && err.fault == e.1,
        },
{
    parse_attributes(attrs, false)
}

} // verus!

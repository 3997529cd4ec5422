use cachelito_core::attributes::{
    parse_async_attributes, parse_cache_if_attribute, parse_decay_interval_attribute,
    parse_invalidate_on_attribute, parse_limit_attribute, parse_max_memory_attribute,
    parse_memory_size, parse_name_attribute, parse_policy_attribute, parse_scope_attribute,
    parse_sketch_depth_attribute, parse_sketch_width_attribute, parse_string_array_attribute,
    parse_sync_attributes, parse_ttl_attribute, policies_str_with_separator, Attr, AttrFault,
    AttrValue, CacheAttributes, Setting,
};
use cachelito_core::keys::CacheScope;

fn s(v: &str) -> AttrValue {
    AttrValue::Str(v.to_string())
}

fn int_lit(v: &str) -> AttrValue {
    AttrValue::Int(v.to_string())
}

fn array(items: &[&str]) -> AttrValue {
    AttrValue::Array(items.iter().map(|i| Some(i.to_string())).collect())
}

fn attr(name: &str, value: AttrValue) -> Attr {
    Attr { name: Some(name.to_string()), value }
}

#[test]
fn test_policies_str_with_separator() {
    let result = policies_str_with_separator(", ");
    assert_eq!(result, "\"fifo\", \"lru\", \"lfu\", \"arc\", \"random\", \"tlru\", \"w_tinylfu\"");

    let result = policies_str_with_separator("|");
    assert_eq!(result, "\"fifo\"|\"lru\"|\"lfu\"|\"arc\"|\"random\"|\"tlru\"|\"w_tinylfu\"");
}

#[test]
fn test_parse_limit_attribute_valid() {
    let result = parse_limit_attribute(&int_lit("100"));
    assert_eq!(result, Setting::Given(100usize));
}

#[test]
fn test_parse_policy_attribute_valid() {
    let result = parse_policy_attribute(&s("fifo"));
    assert!(result.is_ok());
    assert_eq!(result.unwrap(), "fifo");

    let result = parse_policy_attribute(&s("lru"));
    assert!(result.is_ok());
    assert_eq!(result.unwrap(), "lru");
}

#[test]
fn test_parse_max_memory_attribute() {
    let result = parse_max_memory_attribute(&s("100MB"));
    let expected = 100 * 1024 * 1024;
    assert_eq!(result, Setting::Given(expected));

    let result = parse_max_memory_attribute(&s("1GB"));
    let expected = 1024 * 1024 * 1024;
    assert_eq!(result, Setting::Given(expected));

    let result = parse_max_memory_attribute(&s("500KB"));
    let expected = 500 * 1024;
    assert_eq!(result, Setting::Given(expected));

    let result = parse_max_memory_attribute(&int_lit("1024"));
    assert_eq!(result, Setting::Given(1024));

    let result = parse_max_memory_attribute(&s("2048"));
    assert_eq!(result, Setting::Given(2048));
}

#[test]
fn test_parse_policy_attribute_invalid() {
    let result = parse_policy_attribute(&s("invalid"));
    assert!(result.is_err());
}

#[test]
fn test_parse_ttl_attribute_valid() {
    let result = parse_ttl_attribute(&int_lit("60"));
    assert_eq!(result, Setting::Given(60u64));
}

#[test]
fn test_parse_name_attribute() {
    let result = parse_name_attribute(&s("my_cache"));
    assert_eq!(result, Some("my_cache".to_string()));
}

#[test]
fn test_parse_scope_attribute_valid() {
    let result = parse_scope_attribute(&s("global"));
    assert!(result.is_ok());
    assert_eq!(result.unwrap(), CacheScope::Global);

    let result = parse_scope_attribute(&s("thread"));
    assert!(result.is_ok());
    assert_eq!(result.unwrap(), CacheScope::ThreadLocal);
}

#[test]
fn test_parse_scope_attribute_invalid() {
    let result = parse_scope_attribute(&s("invalid"));
    assert!(result.is_err());
}

#[test]
fn test_parse_async_attributes_defaults() {
    let attrs = parse_async_attributes(&vec![]).unwrap();
    assert_eq!(attrs.limit, Setting::Unset);
    assert_eq!(attrs.policy, "fifo");
    assert_eq!(attrs.ttl, Setting::Unset);
    assert_eq!(attrs.custom_name, None);
}

#[test]
fn test_parse_async_attributes_complete() {
    let attrs = parse_async_attributes(&vec![
        attr("limit", int_lit("50")),
        attr("policy", s("lru")),
        attr("ttl", int_lit("120")),
        attr("name", s("test_cache")),
    ])
    .unwrap();

    assert_eq!(attrs.limit, Setting::Given(50));
    assert_eq!(attrs.policy, "lru");
    assert_eq!(attrs.ttl, Setting::Given(120));
    assert_eq!(attrs.custom_name, Some("test_cache".to_string()));
}

#[test]
fn test_parse_sync_attributes_defaults() {
    let attrs = parse_sync_attributes(&vec![]).unwrap();
    assert_eq!(attrs.limit, Setting::Unset);
    assert_eq!(attrs.policy, "fifo");
    assert_eq!(attrs.scope, CacheScope::Global);
}

#[test]
fn test_parse_sync_attributes_complete() {
    let attrs = parse_sync_attributes(&vec![
        attr("limit", int_lit("100")),
        attr("policy", s("arc")),
        attr("ttl", int_lit("300")),
        attr("scope", s("thread")),
        attr("name", s("sync_cache")),
    ])
    .unwrap();

    assert_eq!(attrs.limit, Setting::Given(100));
    assert_eq!(attrs.policy, "arc");
    assert_eq!(attrs.scope, CacheScope::ThreadLocal);
    assert_eq!(attrs.custom_name, Some("sync_cache".to_string()));
}

#[test]
fn test_parse_common_attribute_name() {
    let mut common = CacheAttributes::new();
    let result = common.apply(&attr("name", s("test_cache")), true);

    assert!(result.is_ok());
    assert_eq!(common.custom_name, Some("test_cache".to_string()));
}

#[test]
fn test_parse_common_attribute_max_memory() {
    let mut common = CacheAttributes::new();
    let result = common.apply(&attr("max_memory", s("100MB")), true);

    assert!(result.is_ok());
    let expected = 100 * 1024 * 1024;
    assert_eq!(common.max_memory, Setting::Given(expected));
}

#[test]
fn test_parse_common_attribute_tags() {
    let mut common = CacheAttributes::new();
    let result = common.apply(&attr("tags", array(&["tag1", "tag2"])), true);

    assert!(result.is_ok());
    assert_eq!(common.tags, vec!["tag1".to_string(), "tag2".to_string()]);
}

#[test]
fn test_parse_common_attribute_events() {
    let mut common = CacheAttributes::new();
    let result = common.apply(&attr("events", array(&["event1"])), true);

    assert!(result.is_ok());
    assert_eq!(common.events, vec!["event1".to_string()]);
}

#[test]
fn test_parse_common_attribute_dependencies() {
    let mut common = CacheAttributes::new();
    let result = common.apply(&attr("dependencies", array(&["dep1", "dep2"])), true);

    assert!(result.is_ok());
    assert_eq!(common.dependencies, vec!["dep1".to_string(), "dep2".to_string()]);
}

#[test]
fn test_parse_common_attribute_unknown() {
    let mut common = CacheAttributes::new();
    let result = common.apply(&attr("unknown", s("value")), true);

    assert_eq!(result, Err(AttrFault::UnknownAttribute));
}

#[test]
fn test_parse_common_attribute_invalidate_on() {
    let mut common = CacheAttributes::new();
    let result = common.apply(&attr("invalidate_on", AttrValue::Path("is_stale".to_string())), true);

    assert!(result.is_ok());
    assert!(common.invalidate_on.is_some());
    assert_eq!(common.invalidate_on.unwrap(), "is_stale");
}

#[test]
fn test_parse_string_array_attribute() {
    let result = parse_string_array_attribute(&array(&["tag1", "tag2", "tag3"]));
    assert!(result.is_ok());
    assert_eq!(result.unwrap(), vec!["tag1".to_string(), "tag2".to_string(), "tag3".to_string()]);
}

#[test]
fn test_parse_async_attributes_unknown_attribute() {
    let attrs = vec![attr("limit", int_lit("100")), attr("unknown_attr", s("value"))];
    let result = parse_async_attributes(&attrs);

    assert!(result.is_err());
    if let Err(err) = result {
        assert_eq!(err.fault, AttrFault::UnknownAttribute);
        assert_eq!(attrs[err.index].name.as_deref(), Some("unknown_attr"));
    }
}

#[test]
fn test_parse_sync_attributes_unknown_attribute() {
    let attrs = vec![attr("limit", int_lit("100")), attr("typo_tag", array(&["tag1"]))];
    let result = parse_sync_attributes(&attrs);

    assert!(result.is_err());
    if let Err(err) = result {
        assert_eq!(err.fault, AttrFault::UnknownAttribute);
        assert_eq!(attrs[err.index].name.as_deref(), Some("typo_tag"));
    }
}

#[test]
fn test_parse_async_attributes_typo_in_tags() {
    let attrs = vec![attr("tag", array(&["user_data"]))];
    let result = parse_async_attributes(&attrs);

    assert!(result.is_err());
    if let Err(err) = result {
        assert_eq!(err.fault, AttrFault::UnknownAttribute);
        assert_eq!(attrs[err.index].name.as_deref(), Some("tag"));
    }
}

#[test]
fn test_parse_sync_attributes_typo_in_events() {
    let attrs = vec![attr("event", array(&["user_updated"]))];
    let result = parse_sync_attributes(&attrs);

    assert!(result.is_err());
    if let Err(err) = result {
        assert_eq!(err.fault, AttrFault::UnknownAttribute);
        assert_eq!(attrs[err.index].name.as_deref(), Some("event"));
    }
}

#[test]
fn memory_size_units_and_errors() {
    assert_eq!(parse_memory_size("100MB"), Ok(104857600));
    assert_eq!(parse_memory_size("1GB"), Ok(1073741824));
    assert_eq!(parse_memory_size("500KB"), Ok(512000));
    assert_eq!(parse_memory_size("2048"), Ok(2048));
    assert_eq!(parse_memory_size("+7"), Ok(7));
    assert_eq!(parse_memory_size("1GBGB"), Ok(1073741824));
    assert_eq!(parse_memory_size("XMB"), Err(AttrFault::InvalidNumber));
    assert_eq!(parse_memory_size("MB"), Err(AttrFault::InvalidNumber));
    assert_eq!(parse_memory_size("12TB"), Err(AttrFault::InvalidFormat));
    assert_eq!(parse_memory_size(""), Err(AttrFault::InvalidFormat));
    assert_eq!(parse_memory_size("-5"), Err(AttrFault::InvalidFormat));
    assert_eq!(parse_memory_size("99999999999999999999"), Err(AttrFault::InvalidFormat));
    assert_eq!(parse_memory_size("17179869184GB"), Err(AttrFault::TooLarge));
}

#[test]
fn max_memory_accepts_any_case() {
    assert_eq!(parse_max_memory_attribute(&s("100mb")), Setting::Given(104857600));
    assert_eq!(parse_max_memory_attribute(&s("2Gb")), Setting::Given(2147483648));
    assert_eq!(parse_max_memory_attribute(&s("ten")), Setting::Invalid(AttrFault::InvalidFormat));
    assert_eq!(
        parse_max_memory_attribute(&AttrValue::Float("1.5".to_string())),
        Setting::Invalid(AttrFault::BadLiteral)
    );
    assert_eq!(parse_max_memory_attribute(&AttrValue::OtherExpr), Setting::Invalid(AttrFault::BadSyntax));
}

#[test]
fn integer_attributes_check_kind_range_and_sign() {
    assert_eq!(parse_limit_attribute(&s("100")), Setting::Invalid(AttrFault::BadLiteral));
    assert_eq!(parse_limit_attribute(&AttrValue::Path("x".to_string())), Setting::Invalid(AttrFault::BadSyntax));
    assert_eq!(
        parse_ttl_attribute(&int_lit("18446744073709551616")),
        Setting::Invalid(AttrFault::BadNumber)
    );
    assert_eq!(parse_ttl_attribute(&int_lit("18446744073709551615")), Setting::Given(u64::MAX));
    assert_eq!(parse_limit_attribute(&int_lit("0")), Setting::Given(0));
    assert_eq!(parse_sketch_width_attribute(&int_lit("0")), Setting::Invalid(AttrFault::NotPositive));
    assert_eq!(parse_sketch_width_attribute(&int_lit("64")), Setting::Given(64));
    assert_eq!(parse_sketch_depth_attribute(&int_lit("0")), Setting::Invalid(AttrFault::NotPositive));
    assert_eq!(parse_sketch_depth_attribute(&int_lit("4")), Setting::Given(4));
    assert_eq!(parse_decay_interval_attribute(&int_lit("0")), Setting::Invalid(AttrFault::NotPositive));
    assert_eq!(parse_decay_interval_attribute(&int_lit("1000")), Setting::Given(1000));
}

#[test]
fn policy_and_scope_refusals() {
    for p in ["fifo", "lru", "lfu", "arc", "random", "tlru", "w_tinylfu"] {
        assert_eq!(parse_policy_attribute(&s(p)), Ok(p.to_string()));
    }
    assert_eq!(parse_policy_attribute(&s("FIFO")), Err(AttrFault::UnknownPolicy));
    assert_eq!(parse_policy_attribute(&int_lit("1")), Err(AttrFault::BadLiteral));
    assert_eq!(parse_policy_attribute(&AttrValue::OtherExpr), Err(AttrFault::BadSyntax));
    assert_eq!(parse_scope_attribute(&s("invalid")), Err(AttrFault::UnknownScope));
    assert_eq!(parse_scope_attribute(&AttrValue::OtherLit), Err(AttrFault::BadLiteral));
    assert_eq!(parse_scope_attribute(&array(&["global"])), Err(AttrFault::BadSyntax));
}

#[test]
fn arrays_and_paths() {
    assert_eq!(
        parse_string_array_attribute(&AttrValue::Array(vec![Some("a".to_string()), None])),
        Err(AttrFault::NonStringElement)
    );
    assert_eq!(parse_string_array_attribute(&s("a")), Err(AttrFault::NotArray));
    assert_eq!(parse_string_array_attribute(&array(&[])), Ok(vec![]));
    assert_eq!(parse_cache_if_attribute(&AttrValue::Path("m::keep".to_string())), Ok("m::keep".to_string()));
    assert_eq!(parse_cache_if_attribute(&s("keep")), Err(AttrFault::BadSyntax));
    assert_eq!(parse_invalidate_on_attribute(&int_lit("1")), Err(AttrFault::BadSyntax));
    assert_eq!(parse_name_attribute(&int_lit("1")), None);
}

#[test]
fn scope_is_unknown_to_async_attributes() {
    let attrs = vec![attr("scope", s("thread"))];
    let err = parse_async_attributes(&attrs).err().unwrap();
    assert_eq!(err.index, 0);
    assert_eq!(err.fault, AttrFault::UnknownAttribute);
    let ok = parse_sync_attributes(&attrs).ok().unwrap();
    assert_eq!(ok.scope, CacheScope::ThreadLocal);
}

#[test]
fn later_attributes_win_and_first_refusal_ends_reading() {
    let attrs = vec![
        attr("limit", int_lit("1")),
        attr("limit", int_lit("2")),
        attr("name", s("a")),
        attr("name", int_lit("3")),
        attr("sketch_width", int_lit("0")),
        attr("frequency_weight", AttrValue::Float("0.5".to_string())),
    ];
    let r = parse_sync_attributes(&attrs).ok().unwrap();
    assert_eq!(r.limit, Setting::Given(2));
    assert_eq!(r.custom_name, None);
    assert_eq!(r.sketch_width, Setting::Invalid(AttrFault::NotPositive));
    assert!(matches!(r.frequency_weight, Some(AttrValue::Float(ref t)) if t == "0.5"));

    let attrs = vec![
        attr("ttl", int_lit("5")),
        attr("policy", s("nope")),
        Attr { name: None, value: int_lit("1") },
    ];
    let err = parse_sync_attributes(&attrs).err().unwrap();
    assert_eq!(err.index, 1);
    assert_eq!(err.fault, AttrFault::UnknownPolicy);

    let attrs = vec![Attr { name: None, value: int_lit("1") }];
    let err = parse_sync_attributes(&attrs).err().unwrap();
    assert_eq!(err.index, 0);
    assert_eq!(err.fault, AttrFault::UnknownAttribute);
}

#[test]
fn refused_attribute_leaves_settings_unchanged() {
    let mut c = CacheAttributes::new();
    assert!(c.apply(&attr("tags", array(&["x"])), true).is_ok());
    let r = c.apply(&attr("tags", AttrValue::Array(vec![None])), true);
    assert_eq!(r, Err(AttrFault::NonStringElement));
    assert_eq!(c.tags, vec!["x".to_string()]);
}

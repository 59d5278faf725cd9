use noil::assoc::AssocMap;
use noil::config::types::{
    AttributeConfig, AttributeType, FiberSourceConfig, FiberTypeConfig, GapMode, PatternConfig, TemporalConfig,
};
use noil::fiber::rule::{topological_sort_derived, CompiledFiberType, CompiledPattern, DerivedTemplate, RuleError};

fn make_basic_fiber_type() -> FiberTypeConfig {
    FiberTypeConfig {
        description: Some("Test fiber type".to_string()),
        temporal: TemporalConfig { max_gap: Some(5_000_000_000), gap_mode: GapMode::Session },
        attributes: vec![
            AttributeConfig { name: "thread_id".to_string(), attr_type: AttributeType::String, key: true, derived: None },
            AttributeConfig { name: "ip".to_string(), attr_type: AttributeType::Ip, key: false, derived: None },
        ],
        sources: vec![(
            "program1".to_string(),
            FiberSourceConfig {
                patterns: vec![PatternConfig {
                    regex: r"thread-(?P<thread_id>\d+)".to_string(),
                    release_matching_peer_keys: vec![],
                    release_self_keys: vec![],
                    close: false,
                }],
            },
        )],
        is_source_fiber: false,
    }
}

#[test]
fn test_compile_basic_fiber_type() {
    let config = make_basic_fiber_type();
    let compiled = CompiledFiberType::from_config("test", &config).ok().unwrap();

    assert_eq!(compiled.name, "test");
    assert_eq!(compiled.key_names.len(), 1);
    assert!(compiled.key_names.contains(&"thread_id".to_string()));
    assert_eq!(compiled.attributes.len(), 2);
    assert!(compiled.source_patterns.contains_key(&"program1".to_string()));
}

#[test]
fn test_derived_template_parsing() {
    let template = DerivedTemplate::from_template("${ip}:${port}->${dst_ip}:${dst_port}");
    assert_eq!(template.dependencies.len(), 4);
    assert!(template.dependencies.contains(&"ip".to_string()));
    assert!(template.dependencies.contains(&"port".to_string()));
    assert!(template.dependencies.contains(&"dst_ip".to_string()));
    assert!(template.dependencies.contains(&"dst_port".to_string()));
}

#[test]
fn test_derived_template_no_deps() {
    let template = DerivedTemplate::from_template("static_value");
    assert!(template.dependencies.is_empty());
}

#[test]
fn test_derived_template_interpolation() {
    let template = DerivedTemplate::from_template("${ip}:${port}");
    let mut values = AssocMap::new();
    values.insert("ip".to_string(), "10.0.0.1".to_string());
    values.insert("port".to_string(), "8080".to_string());

    let result = template.interpolate(&values);
    assert_eq!(result, Some("10.0.0.1:8080".to_string()));
}

#[test]
fn test_derived_template_interpolation_missing_dep() {
    let template = DerivedTemplate::from_template("${ip}:${port}");
    let mut values = AssocMap::new();
    values.insert("ip".to_string(), "10.0.0.1".to_string());

    let result = template.interpolate(&values);
    assert!(result.is_none());
}

#[test]
fn test_duplicate_attribute_error() {
    let mut config = make_basic_fiber_type();
    config.attributes.push(AttributeConfig {
        name: "thread_id".to_string(),
        attr_type: AttributeType::String,
        key: false,
        derived: None,
    });

    let result = CompiledFiberType::from_config("test", &config);
    assert!(matches!(result, Err(RuleError::DuplicateAttribute(_))));
}

#[test]
fn test_release_matching_peer_keys_not_extractable() {
    let mut config = make_basic_fiber_type();
    config.sources[0].1.patterns[0].release_matching_peer_keys.push("thread_id".to_string());

    let result = CompiledFiberType::from_config("test", &config);
    assert!(result.is_ok());

    config.attributes.push(AttributeConfig {
        name: "other_key".to_string(),
        attr_type: AttributeType::String,
        key: true,
        derived: None,
    });
    config.sources[0].1.patterns[0].release_matching_peer_keys.push("other_key".to_string());

    let result = CompiledFiberType::from_config("test", &config);
    assert!(matches!(result, Err(RuleError::KeyNotExtractable { .. })));
}

#[test]
fn test_release_self_keys_not_a_key() {
    let mut config = make_basic_fiber_type();
    config.sources[0].1.patterns[0].release_self_keys.push("ip".to_string());

    let result = CompiledFiberType::from_config("test", &config);
    assert!(matches!(result, Err(RuleError::ReleaseSelfNotKey { .. })));
}

#[test]
fn test_derived_circular_dependency() {
    let config = FiberTypeConfig {
        description: None,
        temporal: TemporalConfig { max_gap: Some(5_000_000_000), gap_mode: GapMode::Session },
        attributes: vec![
            AttributeConfig { name: "a".to_string(), attr_type: AttributeType::String, key: false, derived: Some("${b}".to_string()) },
            AttributeConfig { name: "b".to_string(), attr_type: AttributeType::String, key: false, derived: Some("${a}".to_string()) },
        ],
        sources: Vec::new(),
        is_source_fiber: false,
    };

    let result = CompiledFiberType::from_config("test", &config);
    assert!(matches!(result, Err(RuleError::CircularDependency(_))));
}

#[test]
fn test_derived_undefined_reference() {
    let config = FiberTypeConfig {
        description: None,
        temporal: TemporalConfig { max_gap: Some(5_000_000_000), gap_mode: GapMode::Session },
        attributes: vec![AttributeConfig {
            name: "a".to_string(),
            attr_type: AttributeType::String,
            key: false,
            derived: Some("${undefined}".to_string()),
        }],
        sources: Vec::new(),
        is_source_fiber: false,
    };

    let result = CompiledFiberType::from_config("test", &config);
    assert!(matches!(result, Err(RuleError::UndefinedReference { .. })));
}

#[test]
fn test_topological_sort() {
    let mut templates = AssocMap::new();
    templates.insert("c".to_string(), DerivedTemplate::from_template("${a}${b}"));
    templates.insert("a".to_string(), DerivedTemplate::from_template("static"));
    templates.insert("b".to_string(), DerivedTemplate::from_template("${a}"));

    let order = topological_sort_derived(&templates).ok().unwrap();

    let a_pos = order.iter().position(|x| x == "a").unwrap();
    let b_pos = order.iter().position(|x| x == "b").unwrap();
    let c_pos = order.iter().position(|x| x == "c").unwrap();

    assert!(a_pos < b_pos);
    assert!(b_pos < c_pos);
}

#[test]
fn test_pattern_extracts_keys() {
    let key_names: Vec<String> = vec!["thread_id".to_string(), "mac".to_string()];

    let config = PatternConfig {
        regex: r"thread-(?P<thread_id>\d+).*MAC (?P<mac>[0-9a-f:]+)".to_string(),
        release_matching_peer_keys: vec![],
        release_self_keys: vec![],
        close: false,
    };

    let compiled = CompiledPattern::from_config(&config, &key_names).ok().unwrap();

    assert!(compiled.extracted_keys.contains(&"thread_id".to_string()));
    assert!(compiled.extracted_keys.contains(&"mac".to_string()));
    assert_eq!(compiled.extracted_keys.len(), 2);
}

#[test]
fn self_cycle_is_circular() {
    let mut templates = AssocMap::new();
    templates.insert("x".to_string(), DerivedTemplate::from_template("${x}"));
    assert!(matches!(topological_sort_derived(&templates), Err(RuleError::CircularDependency(_))));
}

#[test]
fn invalid_pattern_regex_is_reported() {
    let mut config = make_basic_fiber_type();
    config.sources[0].1.patterns[0].regex = "(unclosed".to_string();
    assert!(matches!(CompiledFiberType::from_config("test", &config), Err(RuleError::RegexCompilation { .. })));
}

#[test]
fn repeated_dependency_is_listed_once() {
    let template = DerivedTemplate::from_template("${a}-${a}-${b}");
    assert_eq!(template.dependencies, vec!["a".to_string(), "b".to_string()]);
    let mut values = AssocMap::new();
    values.insert("a".to_string(), "1".to_string());
    values.insert("b".to_string(), "2".to_string());
    assert_eq!(template.interpolate(&values), Some("1-1-2".to_string()));
}

#[test]
fn a_longer_cycle_has_no_order() {
    let mut templates = AssocMap::new();
    templates.insert("a".to_string(), DerivedTemplate::from_template("${b}"));
    templates.insert("b".to_string(), DerivedTemplate::from_template("${c}"));
    templates.insert("c".to_string(), DerivedTemplate::from_template("${a}"));
    templates.insert("d".to_string(), DerivedTemplate::from_template("plain"));
    match topological_sort_derived(&templates) {
        Err(RuleError::CircularDependency(n)) => assert!(n == "a" || n == "b" || n == "c"),
        _ => panic!("a cycle must be reported"),
    }
}

#[test]
fn templates_without_cycle_are_all_ordered() {
    let mut templates = AssocMap::new();
    templates.insert("d".to_string(), DerivedTemplate::from_template("${a}-${c}"));
    templates.insert("c".to_string(), DerivedTemplate::from_template("${a}"));
    templates.insert("a".to_string(), DerivedTemplate::from_template("x"));
    let order = topological_sort_derived(&templates).ok().unwrap();
    assert_eq!(order.len(), 3);
    assert_eq!(order, vec!["a".to_string(), "c".to_string(), "d".to_string()]);
}

use noil::web::api::{
    add_fiber_type_to_yaml, delete_fiber_type_from_yaml, extract_fiber_type_yaml_with_name, simplify_log_points,
    update_fiber_type_in_yaml, ApiError, PaginationParams,
};

#[test]
fn simplify_log_points_includes_both_sides_of_transitions() {
    let points = vec![
        (1_000, "source_a".to_string()),
        (2_000, "source_a".to_string()),
        (3_000, "source_b".to_string()),
        (4_000, "source_b".to_string()),
        (5_000, "source_c".to_string()),
    ];

    let simplified = simplify_log_points(points);
    let simplified_pairs: Vec<(i128, String)> =
        simplified.iter().map(|point| (point.timestamp / 1_000, point.source_id.clone())).collect();

    assert_eq!(
        simplified_pairs,
        vec![
            (1, "source_a".to_string()),
            (2, "source_a".to_string()),
            (3, "source_b".to_string()),
            (4, "source_b".to_string()),
            (5, "source_c".to_string())
        ]
    );
}

#[test]
fn simplify_keeps_ends_of_a_single_source_run() {
    let points = vec![(1, "a".to_string()), (2, "a".to_string()), (3, "a".to_string())];
    let s = simplify_log_points(points);
    assert_eq!(s.len(), 2);
    assert_eq!(s[0].timestamp, 1);
    assert_eq!(s[1].timestamp, 3);
    assert!(simplify_log_points(Vec::new()).is_empty());
}

const YAML: &str = "sources:\n  app:\n    type: file\nfiber_types:\n  first:\n    description: one\n    attributes: []\n\n  second:\n    description: two\n# trailing comment\nstorage:\n  path: x\n";

#[test]
fn delete_removes_an_entry_and_its_lines() {
    let out = delete_fiber_type_from_yaml(YAML, "first").ok().unwrap();
    assert_eq!(out, "sources:\n  app:\n    type: file\nfiber_types:\n  second:\n    description: two\n# trailing comment\nstorage:\n  path: x");
    assert!(matches!(delete_fiber_type_from_yaml(YAML, "missing"), Err(ApiError::NotFound(_))));
}

#[test]
fn extract_gives_the_entry_relative_to_its_name() {
    let out = extract_fiber_type_yaml_with_name(YAML, "first").ok().unwrap();
    assert_eq!(out, "first:\n  description: one\n  attributes: []");
    let out2 = extract_fiber_type_yaml_with_name(YAML, "second").ok().unwrap();
    assert_eq!(out2, "second:\n  description: two\n# trailing comment");
}

#[test]
fn update_replaces_the_entry() {
    let out = update_fiber_type_in_yaml(YAML, "second", "second:\n  description: changed").ok().unwrap();
    assert_eq!(
        out,
        "sources:\n  app:\n    type: file\nfiber_types:\n  first:\n    description: one\n    attributes: []\n\n  second:\n    description: changed\nstorage:\n  path: x"
    );
    match update_fiber_type_in_yaml(YAML, "third", "third: {}") {
        Err(ApiError::NotFound(m)) => assert_eq!(
            m,
            "Fiber type 'third' not found in config YAML. Found fiber types: [\"first\", \"second\"]. Check that the fiber type exists and is properly formatted."
        ),
        _ => panic!("expected not found"),
    }
}

#[test]
fn add_appends_at_end_of_section() {
    let out = add_fiber_type_to_yaml(YAML, "third", "third:\n  description: three").ok().unwrap();
    assert!(out.contains("  third:\n    description: three\n\nstorage:"));
    assert!(matches!(add_fiber_type_to_yaml("sources: {}\n", "x", "x: {}"), Err(ApiError::Internal(_))));
}

#[test]
fn page_size_is_capped() {
    let p = PaginationParams { limit: 5000, offset: 7 };
    assert_eq!(p.limit(), 1000);
    assert_eq!(p.offset(), 7);
    let q = PaginationParams { limit: 10, offset: 0 };
    assert_eq!(q.limit(), 10);
}

#[test]
fn only_direct_children_of_the_section_are_edited() {
    let yaml = "fiber_types:\n  a:\n    description: d\nweb:\n  listen: x";
    assert!(matches!(noil::web::api::update_fiber_type_in_yaml(yaml, "web", "web:\n  listen: y"), Err(noil::web::api::ApiError::NotFound(_))));
    assert!(matches!(noil::web::api::update_fiber_type_in_yaml(yaml, "description", "description: z"), Err(noil::web::api::ApiError::NotFound(_))));
    assert_eq!(
        noil::web::api::update_fiber_type_in_yaml(yaml, "a", "a:\n  description: e").ok().unwrap(),
        "fiber_types:\n  a:\n    description: e\nweb:\n  listen: x"
    );
    let yaml2 = "fiber_types:\n  a:\n    x: 1\nweb:\n  listen: y";
    assert!(matches!(noil::web::api::delete_fiber_type_from_yaml(yaml2, "web"), Err(noil::web::api::ApiError::NotFound(_))));
    assert!(matches!(noil::web::api::delete_fiber_type_from_yaml(yaml2, "x"), Err(noil::web::api::ApiError::NotFound(_))));
    assert_eq!(noil::web::api::delete_fiber_type_from_yaml(yaml2, "a").ok().unwrap(), "fiber_types:\nweb:\n  listen: y");
}

#[test]
fn extracting_after_an_update_gives_the_new_text() {
    let new_text = "first:\n  description: replaced\n  attributes:\n    - name: x";
    let updated = update_fiber_type_in_yaml(YAML, "first", new_text).ok().unwrap();
    assert_eq!(extract_fiber_type_yaml_with_name(&updated, "first").ok().unwrap(), new_text);
    let with_blank_end = format!("{}\n\n", YAML);
    let updated2 = update_fiber_type_in_yaml(&with_blank_end, "second", "second:\n  description: new").ok().unwrap();
    assert_eq!(extract_fiber_type_yaml_with_name(&updated2, "second").ok().unwrap(), "second:\n  description: new");
}

#[test]
fn extracting_after_an_add_gives_the_new_text() {
    let new_text = "third:\n  description: three\n  attributes: []";
    let added = add_fiber_type_to_yaml(YAML, "third", new_text).ok().unwrap();
    assert_eq!(extract_fiber_type_yaml_with_name(&added, "third").ok().unwrap(), new_text);
    let at_end = add_fiber_type_to_yaml("fiber_types:\n  a:\n    description: x\n", "b", "b:\n  description: y").ok().unwrap();
    assert_eq!(extract_fiber_type_yaml_with_name(&at_end, "b").ok().unwrap(), "b:\n  description: y");
}

#[test]
fn crlf_texts_read_back_after_an_edit() {
    let yaml = "fiber_types:\r\n  a:\r\n    description: x\r\nstorage:\r\n  path: y\r\n";
    let updated = update_fiber_type_in_yaml(yaml, "a", "a:\r\n  description: z").ok().unwrap();
    assert_eq!(extract_fiber_type_yaml_with_name(&updated, "a").ok().unwrap(), "a:\n  description: z");
    let added = add_fiber_type_to_yaml(yaml, "b", "b:\r\n  description: w").ok().unwrap();
    assert_eq!(extract_fiber_type_yaml_with_name(&added, "b").ok().unwrap(), "b:\n  description: w");
}

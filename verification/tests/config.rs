use noil::config::reconcile::{merge_three_way, MergeResult};
use noil::config::diff::{create_diff, create_diff_with_context};
use noil::config::generate::generate_starter_config;
use noil::config::types::{format_duration, format_optional_duration, parse_duration, parse_optional_duration};
use noil::config::validate::{extract_variable_references, topological_sort_attributes};
use noil::config::version::{compute_config_hash, config_version_from_hash, normalize_yaml, to_lower_hex};
use noil::config::{expand_env_vars, expand_tilde, expand_tilde_with_home};

// ---- diff ----

#[test]
fn test_create_diff_no_changes() {
    let text = "line1\nline2\nline3\n";
    let diff = create_diff(text, text);
    assert!(diff.contains(" line1"));
    assert!(diff.contains(" line2"));
    assert!(diff.contains(" line3"));
    assert!(!diff.contains("+"));
    assert!(!diff.contains("-"));
}

#[test]
fn test_create_diff_addition() {
    let from = "line1\nline2\n";
    let to = "line1\nline2\nline3\n";
    let diff = create_diff(from, to);
    assert!(diff.contains(" line1"));
    assert!(diff.contains(" line2"));
    assert!(diff.contains("+ line3"));
}

#[test]
fn test_create_diff_deletion() {
    let from = "line1\nline2\nline3\n";
    let to = "line1\nline3\n";
    let diff = create_diff(from, to);
    assert!(diff.contains(" line1"));
    assert!(diff.contains("- line2"));
    assert!(diff.contains(" line3"));
}

#[test]
fn test_create_diff_modification() {
    let from = "line1\nline2\nline3\n";
    let to = "line1\nmodified\nline3\n";
    let diff = create_diff(from, to);
    assert!(diff.contains(" line1"));
    assert!(diff.contains("- line2"));
    assert!(diff.contains("+ modified"));
    assert!(diff.contains(" line3"));
}

#[test]
fn test_create_diff_with_context_header() {
    let from = "line1\nline2\n";
    let to = "line1\nline3\n";
    let diff = create_diff_with_context(from, to, "old.txt", "new.txt");
    assert!(diff.contains("--- old.txt"));
    assert!(diff.contains("+++ new.txt"));
    assert!(diff.contains("@@"));
}

#[test]
fn test_empty_diff() {
    let diff = create_diff("", "");
    assert_eq!(diff, "");
}

#[test]
fn test_diff_with_empty_from() {
    let to = "new line\n";
    let diff = create_diff("", to);
    assert!(diff.contains("+ new line"));
}

#[test]
fn test_diff_with_empty_to() {
    let from = "old line\n";
    let diff = create_diff(from, "");
    assert!(diff.contains("- old line"));
}

#[test]
fn diff_exact_text_and_missing_newline() {
    assert_eq!(create_diff("a\nb", "a\nc"), "  a\n- b\n+ c\n");
}

#[test]
fn context_diff_exact_counts() {
    let diff = create_diff_with_context("a\nb\n", "a\nc\nd\n", "x", "y");
    assert_eq!(diff, "--- x\n+++ y\n@@ -1,2 +1,3 @@\n a\n-b\n+c\n+d\n");
}

#[test]
fn context_diff_of_empty_texts_is_headers_only() {
    assert_eq!(create_diff_with_context("", "", "x", "y"), "--- x\n+++ y\n");
}

// ---- version ----

#[test]
fn test_same_content_produces_same_hash() {
    let content = "sources:\n  test:\n    type: file\n";
    let hash1 = compute_config_hash(content);
    let hash2 = compute_config_hash(content);
    assert_eq!(hash1, hash2);
    assert_eq!(hash1.len(), 64);
}

#[test]
fn test_different_content_produces_different_hash() {
    let content1 = "sources:\n  test1:\n    type: file\n";
    let content2 = "sources:\n  test2:\n    type: file\n";
    assert_ne!(compute_config_hash(content1), compute_config_hash(content2));
}

#[test]
fn test_normalized_content_produces_same_hash() {
    let content1 = "sources:\n  test:\n    type: file\n    path: /var/log/test.log";
    let content2 = "sources:\n  test:\n    path: /var/log/test.log\n    type: file";
    let hash1 = compute_config_hash(content1);
    let hash2 = compute_config_hash(content2);
    assert_eq!(hash1, hash2);
}

#[test]
fn test_whitespace_differences_normalized() {
    let content1 = "sources:\n  test:\n    type: file";
    let content2 = "sources:\n  test:\n    type:  file";
    assert_eq!(compute_config_hash(content1), compute_config_hash(content2));
}

#[test]
fn test_invalid_yaml_uses_raw_content() {
    let invalid_yaml = "this is not valid: yaml: content: [[[";
    let hash = compute_config_hash(invalid_yaml);
    assert_eq!(hash.len(), 64);
}

#[test]
fn hash_is_sha256_of_normal_form() {
    // SHA-256 of the empty string
    assert_eq!(
        to_lower_hex(&[0xe3, 0xb0, 0xc4, 0x42]),
        "e3b0c442"
    );
    let invalid = "a: [";
    assert_eq!(normalize_yaml(invalid), invalid);
    assert_eq!(normalize_yaml("a:   1"), "a: 1\n");
}

#[test]
fn numeric_version_reads_first_eight_bytes() {
    assert_eq!(config_version_from_hash("abc"), 0);
    assert_eq!(config_version_from_hash("\u{1}\0\0\0\0\0\0\0rest"), 1);
    assert_eq!(config_version_from_hash("00000000"), u64::from_le_bytes(*b"00000000"));
}

// ---- environment and paths ----

fn env(pairs: &[(&str, &str)]) -> Vec<(String, String)> {
    pairs.iter().map(|(k, v)| (k.to_string(), v.to_string())).collect()
}

#[test]
fn test_expand_env_vars_single() {
    let result = expand_env_vars("path/$env{TEST_VAR}/file", &env(&[("TEST_VAR", "test_value")]));
    assert_eq!(result, "path/test_value/file");
}

#[test]
fn test_expand_env_vars_multiple() {
    let result = expand_env_vars("$env{VAR1}/middle/$env{VAR2}", &env(&[("VAR1", "value1"), ("VAR2", "value2")]));
    assert_eq!(result, "value1/middle/value2");
}

#[test]
fn test_expand_env_vars_unset() {
    let result = expand_env_vars("path/$env{NONEXISTENT_VAR}/file", &env(&[]));
    assert_eq!(result, "path/$env{NONEXISTENT_VAR}/file");
}

#[test]
fn test_expand_env_vars_no_expansion() {
    let result = expand_env_vars("plain/path/without/vars", &env(&[]));
    assert_eq!(result, "plain/path/without/vars");
}

#[test]
fn test_expand_env_vars_partial() {
    let result = expand_env_vars("$env{SET_VAR}/$env{UNSET_VAR}", &env(&[("SET_VAR", "exists")]));
    assert_eq!(result, "exists/$env{UNSET_VAR}");
}

#[test]
fn test_expand_env_vars_ignores_derived_attributes() {
    let result = expand_env_vars("${client_ip}:${client_port}", &env(&[("client_ip", "x")]));
    assert_eq!(result, "${client_ip}:${client_port}");
}

#[test]
fn test_expand_tilde_with_path() {
    let expanded = expand_tilde("~/test/path");
    if let Some(home) = dirs::home_dir() {
        assert_eq!(expanded, home.join("test/path").to_string_lossy());
    }
}

#[test]
fn test_expand_tilde_alone() {
    let expanded = expand_tilde("~");
    if let Some(home) = dirs::home_dir() {
        assert_eq!(expanded, home.to_string_lossy());
    }
}

#[test]
fn test_expand_tilde_no_expansion() {
    assert_eq!(expand_tilde("/absolute/path"), "/absolute/path");
}

#[test]
fn test_expand_tilde_relative_without_tilde() {
    assert_eq!(expand_tilde("relative/path"), "relative/path");
}

#[test]
fn tilde_with_given_home() {
    assert_eq!(expand_tilde_with_home("~/logs/app.log", Some("/home/u")), "/home/u/logs/app.log");
    assert_eq!(expand_tilde_with_home("~", Some("/home/u")), "/home/u");
    assert_eq!(expand_tilde_with_home("~user/x", Some("/home/u")), "~user/x");
    assert_eq!(expand_tilde_with_home("~/x", None), "~/x");
    assert_eq!(expand_tilde_with_home("~//abs", Some("/home/u")), "/abs");
}

// ---- variable references and ordering ----

#[test]
fn test_extract_variable_references() {
    let template = "${ip}:${port}->${dst_ip}:${dst_port}";
    let refs = extract_variable_references(template);
    assert_eq!(refs, vec!["ip", "port", "dst_ip", "dst_port"]);
}

#[test]
fn test_extract_no_references() {
    let template = "static_value";
    let refs = extract_variable_references(template);
    assert_eq!(refs, Vec::<String>::new());
}

fn attr(name: &str, derived: Option<&str>) -> noil::config::types::AttributeConfig {
    noil::config::types::AttributeConfig {
        name: name.to_string(),
        attr_type: noil::config::types::AttributeType::String,
        key: false,
        derived: derived.map(|d| d.to_string()),
    }
}

#[test]
fn attributes_sort_after_their_references() {
    let attrs = vec![attr("conn", Some("${ip}:${port}")), attr("ip", None), attr("port", None)];
    let order = topological_sort_attributes(&attrs).unwrap();
    let pos = |n: &str| order.iter().position(|x| x == n).unwrap();
    assert_eq!(order.len(), 3);
    assert!(pos("ip") < pos("conn"));
    assert!(pos("port") < pos("conn"));
}

#[test]
fn attribute_cycle_is_reported() {
    let attrs = vec![attr("a", Some("${b}")), attr("b", Some("${a}")), attr("c", None)];
    assert_eq!(topological_sort_attributes(&attrs).unwrap_err(), "cycle involving: a, b");
}

// ---- durations ----

#[test]
fn durations_read_in_each_unit() {
    assert_eq!(parse_duration("500ms"), Ok(500_000_000));
    assert_eq!(parse_duration(" 30s "), Ok(30_000_000_000));
    assert_eq!(parse_duration("5m"), Ok(300_000_000_000));
    assert_eq!(parse_duration("2h"), Ok(7_200_000_000_000));
}

#[test]
fn bad_durations_are_refused() {
    assert_eq!(parse_duration(""), Err("empty duration string".to_string()));
    assert_eq!(parse_duration("10x"), Err("invalid duration format: 10x".to_string()));
    assert_eq!(parse_duration("abcs"), Err("invalid numeric value: abc".to_string()));
}

#[test]
fn durations_write_in_the_largest_whole_unit() {
    assert_eq!(format_duration(7_200_000_000_000), "2h");
    assert_eq!(format_duration(300_000_000_000), "5m");
    assert_eq!(format_duration(90_000_000_000), "90s");
    assert_eq!(format_duration(250_000_000), "250ms");
    assert_eq!(parse_duration(&format_duration(300_000_000_000)), Ok(300_000_000_000));
}

#[test]
fn starter_config_mentions_every_section() {
    let s = generate_starter_config();
    for section in ["sources:", "fiber_types:", "pipeline:", "sequencer:", "storage:", "web:"] {
        assert!(s.contains(section), "missing {}", section);
    }
}

#[test]
fn yaml_with_non_text_keys_is_normalized_too() {
    assert_eq!(compute_config_hash("1: a\n2:    b\n"), compute_config_hash("1: a\n2: b\n"));
    assert_ne!(compute_config_hash("1: a\n2: b\n"), compute_config_hash("1: a\n2: c\n"));
}

#[test]
fn merge_with_an_unchanged_side_gives_the_other() {
    match merge_three_way("a\nb\n", "a\nb\n", "a\nc\nd\n") {
        MergeResult::Clean(s) => assert_eq!(s, "a\nc\nd"),
        _ => panic!("expected a clean merge"),
    }
    match merge_three_way("a\nb\n", "x\n", "a\nb\n") {
        MergeResult::Clean(s) => assert_eq!(s, "x"),
        _ => panic!("expected a clean merge"),
    }
}

#[test]
fn no_limit_reads_and_writes_as_infinite() {
    assert_eq!(parse_optional_duration("infinite"), Ok(None));
    assert_eq!(format_optional_duration(None), "infinite");
    assert_eq!(parse_optional_duration("2m"), Ok(Some(120_000_000_000)));
    assert_eq!(format_optional_duration(Some(120_000_000_000)), "2m");
    assert_eq!(format_optional_duration(Some(90_000_000_000)), "90s");
    assert_eq!(format_optional_duration(Some(250_000_000)), "250ms");
    for d in [None, Some(120_000_000_000u128), Some(90_000_000_000), Some(250_000_000)] {
        assert_eq!(parse_optional_duration(&format_optional_duration(d)), Ok(d));
    }
    assert!(parse_optional_duration("").is_err());
    assert!(parse_optional_duration("5x").is_err());
    assert!(parse_optional_duration("abcs").is_err());
}

#[test]
fn merge_of_sides_with_the_same_lines_is_clean() {
    match merge_three_way("a\nb\n", "x\ny\n", "x\ny") {
        MergeResult::Clean(s) => assert_eq!(s, "x\ny"),
        _ => panic!("equal sides merge cleanly"),
    }
    match merge_three_way("a\nb", "a\nb\n", "a\nc\nd") {
        MergeResult::Clean(s) => assert_eq!(s, "a\nc\nd"),
        _ => panic!("a side with the base's lines takes the other"),
    }
}

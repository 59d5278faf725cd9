use noil::config::types::{
    AttributeConfig, AttributeType, FiberSourceConfig, FiberTypeConfig, GapMode, PatternConfig, TemporalConfig,
};
use noil::fiber::processor::FiberTypeProcessor;
use noil::fiber::rule::CompiledFiberType;
use noil::source::reader::LogRecord;

fn make_log(source: &str, timestamp: &str, text: &str) -> LogRecord {
    LogRecord {
        id: uuid::Uuid::new_v4().as_u128(),
        timestamp: chrono::DateTime::parse_from_rfc3339(timestamp).unwrap().timestamp_nanos_opt().unwrap() as i128,
        source_id: source.to_string(),
        raw_text: text.to_string(),
        file_offset: 0,
    }
}

fn pattern(regex: &str) -> PatternConfig {
    PatternConfig { regex: regex.to_string(), release_matching_peer_keys: vec![], release_self_keys: vec![], close: false }
}

fn make_simple_fiber_type() -> FiberTypeConfig {
    FiberTypeConfig {
        description: Some("Simple test fiber".to_string()),
        temporal: TemporalConfig { max_gap: Some(5_000_000_000), gap_mode: GapMode::Session },
        attributes: vec![AttributeConfig {
            name: "thread_id".to_string(),
            attr_type: AttributeType::String,
            key: true,
            derived: None,
        }],
        sources: vec![("program1".to_string(), FiberSourceConfig { patterns: vec![pattern(r"thread-(?P<thread_id>\d+)")] })],
        is_source_fiber: false,
    }
}

fn processor(config: &FiberTypeConfig) -> FiberTypeProcessor {
    let compiled = CompiledFiberType::from_config("test", config).ok().unwrap();
    FiberTypeProcessor::new(compiled, 1)
}

#[test]
fn test_process_log_creates_fiber() {
    let mut processor = processor(&make_simple_fiber_type());

    let log = make_log("program1", "2025-12-04T10:00:00Z", "thread-5 doing stuff");
    let result = processor.process_log(&log);

    assert_eq!(result.new_fibers.len(), 1);
    assert_eq!(result.memberships.len(), 1);
    assert_eq!(processor.open_fiber_count(), 1);
}

#[test]
fn test_process_log_joins_existing_fiber() {
    let mut processor = processor(&make_simple_fiber_type());

    let log1 = make_log("program1", "2025-12-04T10:00:00Z", "thread-5 doing stuff");
    let result1 = processor.process_log(&log1);
    assert_eq!(result1.new_fibers.len(), 1);
    let fiber_id = result1.new_fibers[0].fiber_id;

    let log2 = make_log("program1", "2025-12-04T10:00:01Z", "thread-5 more stuff");
    let result2 = processor.process_log(&log2);
    assert_eq!(result2.new_fibers.len(), 0);
    assert_eq!(result2.memberships.len(), 1);
    assert_eq!(result2.memberships[0].fiber_id, fiber_id);
    assert_eq!(processor.open_fiber_count(), 1);
}

#[test]
fn test_process_log_different_key_creates_new_fiber() {
    let mut processor = processor(&make_simple_fiber_type());

    processor.process_log(&make_log("program1", "2025-12-04T10:00:00Z", "thread-5 doing stuff"));
    let result2 = processor.process_log(&make_log("program1", "2025-12-04T10:00:01Z", "thread-6 doing stuff"));

    assert_eq!(result2.new_fibers.len(), 1);
    assert_eq!(processor.open_fiber_count(), 2);
}

#[test]
fn test_timeout_closes_fiber() {
    let mut processor = processor(&make_simple_fiber_type());

    processor.process_log(&make_log("program1", "2025-12-04T10:00:00Z", "thread-5 doing stuff"));
    assert_eq!(processor.open_fiber_count(), 1);

    let result2 = processor.process_log(&make_log("program1", "2025-12-04T10:00:06Z", "thread-6 other stuff"));

    assert_eq!(result2.closed_fiber_ids.len(), 1);
    assert_eq!(result2.new_fibers.len(), 1);
    assert_eq!(processor.open_fiber_count(), 1);
}

#[test]
fn test_release_matching_peer_keys() {
    let mut config = make_simple_fiber_type();
    config.sources[0].1.patterns = vec![
        PatternConfig {
            regex: r"thread-(?P<thread_id>\d+) START".to_string(),
            release_matching_peer_keys: vec!["thread_id".to_string()],
            release_self_keys: vec![],
            close: false,
        },
        pattern(r"thread-(?P<thread_id>\d+)"),
    ];

    let mut processor = processor(&config);

    let result1 = processor.process_log(&make_log("program1", "2025-12-04T10:00:00Z", "thread-5 doing stuff"));
    let fiber1_id = result1.new_fibers[0].fiber_id;

    let result2 = processor.process_log(&make_log("program1", "2025-12-04T10:00:01Z", "thread-5 START"));

    assert_eq!(result2.new_fibers.len(), 1);
    assert_ne!(result2.new_fibers[0].fiber_id, fiber1_id);
    assert_eq!(processor.open_fiber_count(), 2);
}

#[test]
fn test_close_pattern() {
    let mut config = make_simple_fiber_type();
    config.sources[0].1.patterns.insert(
        0,
        PatternConfig {
            regex: r"thread-(?P<thread_id>\d+) END".to_string(),
            release_matching_peer_keys: vec![],
            release_self_keys: vec![],
            close: true,
        },
    );

    let mut processor = processor(&config);

    processor.process_log(&make_log("program1", "2025-12-04T10:00:00Z", "thread-5 doing stuff"));
    assert_eq!(processor.open_fiber_count(), 1);

    let result2 = processor.process_log(&make_log("program1", "2025-12-04T10:00:01Z", "thread-5 END"));

    assert_eq!(result2.closed_fiber_ids.len(), 1);
    assert_eq!(processor.open_fiber_count(), 0);
}

#[test]
fn processor_test_fiber_merge() {
    let config = FiberTypeConfig {
        description: Some("Merge test".to_string()),
        temporal: TemporalConfig { max_gap: Some(10_000_000_000), gap_mode: GapMode::Session },
        attributes: vec![
            AttributeConfig { name: "key1".to_string(), attr_type: AttributeType::String, key: true, derived: None },
            AttributeConfig { name: "key2".to_string(), attr_type: AttributeType::String, key: true, derived: None },
        ],
        sources: vec![(
            "program1".to_string(),
            FiberSourceConfig {
                patterns: vec![
                    pattern(r"K1=(?P<key1>\w+) K2=(?P<key2>\w+)"),
                    pattern(r"K1=(?P<key1>\w+)"),
                    pattern(r"K2=(?P<key2>\w+)"),
                ],
            },
        )],
        is_source_fiber: false,
    };

    let mut processor = processor(&config);

    processor.process_log(&make_log("program1", "2025-12-04T10:00:00Z", "K1=A"));
    processor.process_log(&make_log("program1", "2025-12-04T10:00:01Z", "K2=B"));

    assert_eq!(processor.open_fiber_count(), 2);

    let result3 = processor.process_log(&make_log("program1", "2025-12-04T10:00:02Z", "K1=A K2=B"));

    assert_eq!(result3.merged_fiber_ids.len(), 1);
    assert_eq!(processor.open_fiber_count(), 1);
}

#[test]
fn test_derived_attributes() {
    let config = FiberTypeConfig {
        description: Some("Derived test".to_string()),
        temporal: TemporalConfig { max_gap: Some(10_000_000_000), gap_mode: GapMode::Session },
        attributes: vec![
            AttributeConfig { name: "ip".to_string(), attr_type: AttributeType::String, key: false, derived: None },
            AttributeConfig { name: "port".to_string(), attr_type: AttributeType::String, key: false, derived: None },
            AttributeConfig {
                name: "endpoint".to_string(),
                attr_type: AttributeType::String,
                key: true,
                derived: Some("${ip}:${port}".to_string()),
            },
        ],
        sources: vec![(
            "program1".to_string(),
            FiberSourceConfig { patterns: vec![pattern(r"(?P<ip>\d+\.\d+\.\d+\.\d+):(?P<port>\d+)")] },
        )],
        is_source_fiber: false,
    };

    let mut processor = processor(&config);

    let result1 = processor.process_log(&make_log("program1", "2025-12-04T10:00:00Z", "connecting to 10.0.0.1:8080"));
    assert_eq!(result1.new_fibers.len(), 1);

    let result2 = processor.process_log(&make_log("program1", "2025-12-04T10:00:01Z", "data from 10.0.0.1:8080"));
    assert_eq!(result2.new_fibers.len(), 0);
    assert_eq!(processor.open_fiber_count(), 1);
}

#[test]
fn test_unmatched_source_ignored() {
    let mut processor = processor(&make_simple_fiber_type());

    let result = processor.process_log(&make_log("unknown_source", "2025-12-04T10:00:00Z", "thread-5 doing stuff"));

    assert_eq!(result.new_fibers.len(), 0);
    assert_eq!(result.memberships.len(), 0);
    assert_eq!(processor.open_fiber_count(), 0);
}

#[test]
fn test_flush_closes_all_fibers() {
    let mut processor = processor(&make_simple_fiber_type());

    processor.process_log(&make_log("program1", "2025-12-04T10:00:00Z", "thread-1 stuff"));
    processor.process_log(&make_log("program1", "2025-12-04T10:00:00Z", "thread-2 stuff"));
    processor.process_log(&make_log("program1", "2025-12-04T10:00:00Z", "thread-3 stuff"));

    assert_eq!(processor.open_fiber_count(), 3);

    let result = processor.flush();
    assert_eq!(result.closed_fiber_ids.len(), 3);
    assert_eq!(processor.open_fiber_count(), 0);
}

#[test]
fn checkpoint_round_trip_keeps_open_fibers() {
    let mut p = processor(&make_simple_fiber_type());
    p.process_log(&make_log("program1", "2025-12-04T10:00:00Z", "thread-1 stuff"));
    let cp = p.create_checkpoint();
    let mut q = processor(&make_simple_fiber_type());
    q.restore_from_checkpoint(&cp);
    assert_eq!(q.open_fiber_count(), 1);
    let r = q.process_log(&make_log("program1", "2025-12-04T10:00:01Z", "thread-1 more"));
    assert_eq!(r.new_fibers.len(), 0);
    assert_eq!(r.memberships.len(), 1);
}

fn merge_config() -> FiberTypeConfig {
    FiberTypeConfig {
        description: Some("Merge test".to_string()),
        temporal: TemporalConfig { max_gap: Some(10_000_000_000), gap_mode: GapMode::Session },
        attributes: vec![
            AttributeConfig { name: "key1".to_string(), attr_type: AttributeType::String, key: true, derived: None },
            AttributeConfig { name: "key2".to_string(), attr_type: AttributeType::String, key: true, derived: None },
        ],
        sources: vec![(
            "program1".to_string(),
            FiberSourceConfig {
                patterns: vec![
                    pattern(r"K1=(?P<key1>\w+) K2=(?P<key2>\w+)"),
                    pattern(r"K1=(?P<key1>\w+)"),
                    pattern(r"K2=(?P<key2>\w+)"),
                ],
            },
        )],
        is_source_fiber: false,
    }
}

#[test]
fn merge_keeps_the_fiber_active_first_and_reports_the_other() {
    let mut processor = processor(&merge_config());
    let r1 = processor.process_log(&make_log("program1", "2025-12-04T10:00:00Z", "K1=A"));
    let r2 = processor.process_log(&make_log("program1", "2025-12-04T10:00:01Z", "K2=B"));
    let first = r1.new_fibers[0].fiber_id;
    let second = r2.new_fibers[0].fiber_id;
    let r3 = processor.process_log(&make_log("program1", "2025-12-04T10:00:02Z", "K1=A K2=B"));
    assert_eq!(r3.merged_fiber_ids, vec![second]);
    assert_eq!(r3.memberships[0].fiber_id, first);
    assert!(r3.new_fibers.is_empty());
    assert!(r3.closed_fiber_ids.is_empty());
    // The survivor is reported updated, with the time span of both.
    assert_eq!(r3.updated_fibers.len(), 1);
    assert_eq!(r3.updated_fibers[0].fiber_id, first);
    assert_eq!(r3.updated_fibers[0].first_activity, r1.new_fibers[0].first_activity);
    // Both keys now lead to the survivor.
    let r4 = processor.process_log(&make_log("program1", "2025-12-04T10:00:03Z", "K2=B"));
    assert_eq!(r4.memberships[0].fiber_id, first);
    assert_eq!(processor.open_fiber_count(), 1);
}

#[test]
fn timeout_reports_the_fiber_that_timed_out() {
    let mut processor = processor(&make_simple_fiber_type());
    let r1 = processor.process_log(&make_log("program1", "2025-12-04T10:00:00Z", "thread-5 doing stuff"));
    let first = r1.new_fibers[0].fiber_id;
    let r2 = processor.process_log(&make_log("program1", "2025-12-04T10:00:06Z", "thread-6 other stuff"));
    assert_eq!(r2.closed_fiber_ids, vec![first]);
    assert_ne!(r2.memberships[0].fiber_id, first);
    // The key of the closed fiber is released: the thread starts a new fiber.
    let r3 = processor.process_log(&make_log("program1", "2025-12-04T10:00:07Z", "thread-5 again"));
    assert_eq!(r3.new_fibers.len(), 1);
    assert_ne!(r3.memberships[0].fiber_id, first);
    assert_eq!(processor.open_fiber_count(), 2);
}

#[test]
fn a_log_within_the_gap_closes_nothing() {
    let mut processor = processor(&make_simple_fiber_type());
    processor.process_log(&make_log("program1", "2025-12-04T10:00:00Z", "thread-5 doing stuff"));
    let r2 = processor.process_log(&make_log("program1", "2025-12-04T10:00:05Z", "thread-6 other stuff"));
    assert!(r2.closed_fiber_ids.is_empty());
    assert_eq!(processor.open_fiber_count(), 2);
}

#[test]
fn unmatched_log_only_closes_timed_out_fibers() {
    let mut processor = processor(&make_simple_fiber_type());
    let r1 = processor.process_log(&make_log("program1", "2025-12-04T10:00:00Z", "thread-5 doing stuff"));
    let r2 = processor.process_log(&make_log("program1", "2025-12-04T10:00:10Z", "no thread here"));
    assert!(r2.memberships.is_empty());
    assert!(r2.new_fibers.is_empty());
    assert!(r2.updated_fibers.is_empty());
    assert!(r2.merged_fiber_ids.is_empty());
    assert_eq!(r2.closed_fiber_ids, vec![r1.new_fibers[0].fiber_id]);
    assert_eq!(processor.open_fiber_count(), 0);
}

#[test]
fn a_key_value_replaced_in_a_merge_leaves_the_index() {
    let mut processor = processor(&merge_config());
    let r1 = processor.process_log(&make_log("program1", "2025-12-04T10:00:00Z", "K1=A K2=X"));
    let survivor = r1.new_fibers[0].fiber_id;
    processor.process_log(&make_log("program1", "2025-12-04T10:00:01Z", "K2=B"));
    // The merge gives the survivor key2 = B; the value X leaves the index.
    let r3 = processor.process_log(&make_log("program1", "2025-12-04T10:00:02Z", "K1=A K2=B"));
    assert_eq!(r3.merged_fiber_ids.len(), 1);
    let r4 = processor.process_log(&make_log("program1", "2025-12-04T10:00:03Z", "K2=X"));
    assert_eq!(r4.new_fibers.len(), 1);
    assert_ne!(r4.memberships[0].fiber_id, survivor);
    assert_eq!(processor.open_fiber_count(), 2);
}

#[test]
fn keys_of_a_closed_fiber_are_released() {
    let mut processor = processor(&merge_config());
    let r1 = processor.process_log(&make_log("program1", "2025-12-04T10:00:00Z", "K1=A K2=X"));
    let survivor = r1.new_fibers[0].fiber_id;
    processor.process_log(&make_log("program1", "2025-12-04T10:00:01Z", "K2=B"));
    processor.process_log(&make_log("program1", "2025-12-04T10:00:02Z", "K1=A K2=B"));
    // The survivor times out; every key value that led to it is released.
    let r4 = processor.process_log(&make_log("program1", "2025-12-04T10:00:13Z", "K1=Z"));
    assert_eq!(r4.closed_fiber_ids, vec![survivor]);
    for (i, text) in ["K1=A", "K2=B", "K2=X"].iter().enumerate() {
        let r = processor.process_log(&make_log("program1", &format!("2025-12-04T10:00:1{}Z", 4 + i), text));
        assert_eq!(r.new_fibers.len(), 1);
        assert_ne!(r.memberships[0].fiber_id, survivor);
    }
    assert_eq!(processor.open_fiber_count(), 4);
}

#[test]
fn a_new_fiber_taking_an_open_fibers_id_releases_its_keys() {
    let mut processor = processor(&make_simple_fiber_type());
    let r1 = processor.process_log(&make_log("program1", "2025-12-04T10:00:00Z", "thread-5 doing stuff"));
    let first = r1.new_fibers[0].fiber_id;
    let log2 = make_log("program1", "2025-12-04T10:00:01Z", "thread-6 doing stuff");
    let m = processor.extract_attributes(&log2);
    let r2 = processor.process_match(&log2, m, first);
    assert_eq!(r2.new_fibers[0].fiber_id, first);
    assert_eq!(processor.open_fiber_count(), 1);
    // thread 5 no longer leads to the id, which now belongs to thread 6
    let r3 = processor.process_log(&make_log("program1", "2025-12-04T10:00:02Z", "thread-5 again"));
    assert_eq!(r3.new_fibers.len(), 1);
    assert_ne!(r3.memberships[0].fiber_id, first);
    let r4 = processor.process_log(&make_log("program1", "2025-12-04T10:00:03Z", "thread-6 again"));
    assert_eq!(r4.memberships[0].fiber_id, first);
    assert_eq!(processor.open_fiber_count(), 2);
}

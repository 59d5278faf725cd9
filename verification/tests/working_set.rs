use noil::config::types::{
    AttributeConfig, AttributeType, BackpressureConfig, BackpressureStrategy, CheckpointConfig, Config, ErrorConfig,
    FiberSourceConfig, FiberTypeConfig, GapMode, ParseErrorStrategy, PatternConfig, PipelineConfig, SequencerConfig,
    StorageConfig, TemporalConfig, WebConfig,
};
use noil::fiber::processor::FiberProcessor;
use noil::storage::traits::StoredLog;
use noil::web::api::ApiError;
use noil::web::working_set::{
    best_match_index, check_fiber_entry, check_log_ids, compare_fiber, distinct_ids, rank_by_iou, select_ids,
    test_fibers, working_set_margin, working_set_window, FiberMatchResult, OVERLONG_GAP_MARGIN, UNLIMITED_GAP_MARGIN,
};

const SECOND: i128 = 1_000_000_000;

fn stored(id: u128, secs: i128, text: &str) -> StoredLog {
    StoredLog {
        log_id: id,
        timestamp: secs * SECOND,
        source_id: "app".to_string(),
        raw_text: text.to_string(),
        ingestion_time: 0,
        config_version: 1,
    }
}

fn result(fiber_id: u128, intersection: usize, union: usize) -> FiberMatchResult {
    FiberMatchResult {
        fiber_id,
        intersection,
        union,
        matching_logs: vec![],
        missing_logs: vec![],
        extra_log_ids: vec![],
        logs: vec![],
    }
}

fn thread_fiber_type() -> FiberTypeConfig {
    FiberTypeConfig {
        description: None,
        temporal: TemporalConfig { max_gap: Some(5 * 1_000_000_000), gap_mode: GapMode::Session },
        attributes: vec![AttributeConfig {
            name: "thread".to_string(),
            attr_type: AttributeType::String,
            key: true,
            derived: None,
        }],
        sources: vec![(
            "app".to_string(),
            FiberSourceConfig {
                patterns: vec![PatternConfig {
                    regex: r"thread-(?P<thread>\d+)".to_string(),
                    release_matching_peer_keys: vec![],
                    release_self_keys: vec![],
                    close: false,
                }],
            },
        )],
        is_source_fiber: false,
    }
}

fn config_with(fiber_type: FiberTypeConfig) -> Config {
    Config {
        sources: vec![],
        fiber_types: vec![("threads".to_string(), fiber_type)],
        auto_source_fibers: false,
        pipeline: PipelineConfig {
            backpressure: BackpressureConfig { strategy: BackpressureStrategy::Block, buffer_limit: 10000 },
            errors: ErrorConfig { on_parse_error: ParseErrorStrategy::Drop },
            checkpoint: CheckpointConfig { enabled: false, interval_seconds: 30 },
        },
        sequencer: SequencerConfig { batch_epoch_duration: None, watermark_safety_margin: None },
        storage: StorageConfig { path: "noil.duckdb".to_string(), batch_size: 1000, flush_interval_seconds: 1 },
        web: WebConfig { listen: "127.0.0.1:7104".to_string() },
    }
}

fn bad_request(r: Result<(), ApiError>) -> String {
    match r {
        Err(ApiError::BadRequest(m)) => m,
        _ => panic!("expected a bad request"),
    }
}

#[test]
fn distinct_keeps_first_occurrences() {
    assert_eq!(distinct_ids(&vec![3, 1, 3, 2, 1]), vec![3, 1, 2]);
    assert_eq!(distinct_ids(&vec![]), Vec::<u128>::new());
}

#[test]
fn select_keeps_or_drops_members() {
    assert_eq!(select_ids(&vec![1, 2, 3, 4], &vec![2, 4, 9], true), vec![2, 4]);
    assert_eq!(select_ids(&vec![1, 2, 3, 4], &vec![2, 4, 9], false), vec![1, 3]);
}

#[test]
fn compare_fiber_counts_intersection_and_union() {
    let window = vec![stored(10, 0, "a"), stored(11, 1, "b"), stored(12, 2, "c"), stored(13, 3, "d")];
    // Expected 10, 11, 12 (11 twice); the fiber has 11, 12, 13, 99 (99 is not in the window).
    let r = compare_fiber(7, &vec![10, 11, 11, 12], &vec![11, 12, 13, 99, 12], &window);
    assert_eq!(r.fiber_id, 7);
    assert_eq!(r.matching_logs, vec![11, 12]);
    assert_eq!(r.missing_logs, vec![10]);
    assert_eq!(r.extra_log_ids, vec![13, 99]);
    assert_eq!(r.intersection, 2);
    assert_eq!(r.union, 5);
    assert_eq!(r.logs, vec![1, 2, 3, 2]);
}

#[test]
fn compare_fiber_with_no_logs() {
    let r = compare_fiber(1, &vec![], &vec![], &vec![]);
    assert_eq!(r.intersection, 0);
    assert_eq!(r.union, 0);
    assert!(r.logs.is_empty());
}

#[test]
fn ranking_orders_by_iou_descending() {
    // IoUs: 1/4, 2/3, 0 (empty union), 1/1, 2/8.
    let ranked = rank_by_iou(vec![result(1, 1, 4), result(2, 2, 3), result(3, 0, 0), result(4, 1, 1), result(5, 2, 8)]);
    let ids: Vec<u128> = ranked.iter().map(|r| r.fiber_id).collect();
    assert_eq!(ids.len(), 5);
    assert_eq!(ids[0], 4);
    assert_eq!(ids[1], 2);
    // 1/4 and 2/8 are equal; either order is a ranking.
    assert!(ids[2] == 1 || ids[2] == 5);
    assert!(ids[3] == 1 || ids[3] == 5);
    assert_eq!(ids[4], 3);
    assert_eq!(best_match_index(&ranked), Some(0));
    assert_eq!(best_match_index(&vec![]), None);
}

#[test]
fn margin_follows_the_gap_limit() {
    assert_eq!(working_set_margin(Some(5_000_000_000), None), 5_000_000_000);
    assert_eq!(working_set_margin(Some(5_000_000_000), Some(true)), 5_000_000_000);
    assert_eq!(working_set_margin(Some(5_000_000_000), Some(false)), 0);
    assert_eq!(working_set_margin(None, None), UNLIMITED_GAP_MARGIN);
    assert_eq!(UNLIMITED_GAP_MARGIN, 3600 * 1_000_000_000);
    assert_eq!(working_set_margin(Some(u128::MAX), None), OVERLONG_GAP_MARGIN);
    assert_eq!(OVERLONG_GAP_MARGIN, 60 * 1_000_000_000);
}

#[test]
fn window_spans_expected_logs_with_margin() {
    let w = working_set_window(&vec![5 * SECOND, 2 * SECOND, 9 * SECOND], 1_000_000_000).ok().unwrap();
    assert_eq!(w.start, SECOND);
    assert_eq!(w.end, 10 * SECOND);
    match working_set_window(&vec![], 0) {
        Err(ApiError::Internal(m)) => assert_eq!(m, "No logs found"),
        _ => panic!("an empty working set has no window"),
    }
}

#[test]
fn fiber_entry_checks() {
    assert!(check_fiber_entry(&Some(vec![Some("threads".to_string())]), "threads").is_ok());
    assert_eq!(bad_request(check_fiber_entry(&None, "threads")), "YAML must be a mapping with one fiber type");
    assert_eq!(
        bad_request(check_fiber_entry(&Some(vec![]), "threads")),
        "YAML must contain exactly one fiber type definition"
    );
    assert_eq!(
        bad_request(check_fiber_entry(&Some(vec![Some("a".to_string()), Some("b".to_string())]), "a")),
        "YAML must contain exactly one fiber type definition"
    );
    assert_eq!(bad_request(check_fiber_entry(&Some(vec![None]), "threads")), "Fiber type name must be a string");
    assert_eq!(
        bad_request(check_fiber_entry(&Some(vec![Some("other".to_string())]), "threads")),
        "Fiber type name in YAML ('other') does not match path parameter ('threads')"
    );
}

#[test]
fn log_ids_must_not_be_empty() {
    assert!(check_log_ids(&vec![1]).is_ok());
    assert_eq!(bad_request(check_log_ids(&vec![])), "log_ids cannot be empty");
}

#[test]
fn test_fibers_finds_the_expected_fiber_first() {
    let mut processor = FiberProcessor::from_config(&config_with(thread_fiber_type()), 999999).ok().unwrap();
    let window = vec![
        stored(1, 0, "thread-1 start"),
        stored(2, 1, "thread-2 start"),
        stored(3, 2, "thread-1 work"),
        stored(4, 3, "no thread here"),
        stored(5, 4, "thread-1 end"),
        stored(6, 5, "thread-2 end"),
    ];
    let results = test_fibers(&mut processor, &vec![1, 3, 5], &window);
    assert_eq!(results.len(), 2);
    let best = &results[0];
    assert_eq!(best.intersection, 3);
    assert_eq!(best.union, 3);
    assert_eq!(best.matching_logs, vec![1, 3, 5]);
    assert!(best.missing_logs.is_empty());
    assert!(best.extra_log_ids.is_empty());
    assert_eq!(best.logs, vec![0, 2, 4]);
    let other = &results[1];
    assert_eq!(other.intersection, 0);
    assert_eq!(other.union, 5);
    assert_eq!(other.missing_logs, vec![1, 3, 5]);
    assert_eq!(other.extra_log_ids, vec![2, 6]);
    assert_eq!(other.logs, vec![1, 5]);
}

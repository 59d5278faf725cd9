use noil::config::parse::ConfigError;
use noil::config::types::{
    AttributeConfig, AttributeType, BackpressureConfig, BackpressureStrategy, CheckpointConfig, Config, ErrorConfig,
    FiberSourceConfig, FiberTypeConfig, GapMode, ParseErrorStrategy, PatternConfig, PipelineConfig, ReadConfig,
    ReadStart, SequencerConfig, SourceConfig, SourceType, StorageConfig, TemporalConfig, TimestampConfig, WebConfig,
};
use noil::config::validate::validate_config;

fn source(pattern: &str) -> SourceConfig {
    SourceConfig {
        source_type: SourceType::File,
        path: "/var/log/app.log".to_string(),
        timestamp: TimestampConfig { pattern: pattern.to_string(), format: "iso8601".to_string() },
        read: ReadConfig { start: ReadStart::Beginning, follow: false },
    }
}

fn attr(name: &str, key: bool, derived: Option<&str>) -> AttributeConfig {
    AttributeConfig { name: name.to_string(), attr_type: AttributeType::String, key, derived: derived.map(|s| s.to_string()) }
}

fn config(sources: Vec<(String, SourceConfig)>, fiber_types: Vec<(String, FiberTypeConfig)>) -> Config {
    Config {
        sources,
        fiber_types,
        auto_source_fibers: false,
        pipeline: PipelineConfig {
            backpressure: BackpressureConfig { strategy: BackpressureStrategy::Block, buffer_limit: 10 },
            errors: ErrorConfig { on_parse_error: ParseErrorStrategy::Drop },
            checkpoint: CheckpointConfig { enabled: false, interval_seconds: 30 },
        },
        sequencer: SequencerConfig { batch_epoch_duration: None, watermark_safety_margin: None },
        storage: StorageConfig { path: "/tmp/x".to_string(), batch_size: 10, flush_interval_seconds: 1 },
        web: WebConfig { listen: "127.0.0.1:8080".to_string() },
    }
}

fn fiber(attrs: Vec<AttributeConfig>, srcs: Vec<(&str, Vec<PatternConfig>)>) -> FiberTypeConfig {
    FiberTypeConfig {
        description: None,
        temporal: TemporalConfig { max_gap: None, gap_mode: GapMode::Session },
        attributes: attrs,
        sources: srcs.into_iter().map(|(n, p)| (n.to_string(), FiberSourceConfig { patterns: p })).collect(),
        is_source_fiber: false,
    }
}

fn pattern(regex: &str, peer: &[&str], own: &[&str]) -> PatternConfig {
    PatternConfig {
        regex: regex.to_string(),
        release_matching_peer_keys: peer.iter().map(|s| s.to_string()).collect(),
        release_self_keys: own.iter().map(|s| s.to_string()).collect(),
        close: false,
    }
}

#[test]
fn valid_configuration_passes() {
    let c = config(
        vec![("app".to_string(), source(r"^(?P<ts>\S+)"))],
        vec![("t".to_string(), fiber(vec![attr("id", true, None)], vec![("app", vec![pattern(r"id=(?P<id>\d+)", &["id"], &["id"])])]))],
    );
    assert!(validate_config(&c).is_ok());
}

#[test]
fn every_broken_rule_is_reported_in_order() {
    let c = config(
        vec![("app".to_string(), source(r"^\S+"))],
        vec![(
            "t".to_string(),
            fiber(
                vec![attr("id", true, None), attr("id", false, None), attr("d", false, Some("${nope}"))],
                vec![("app", vec![pattern(r"x", &["id"], &["zz"])]), ("ghost", vec![])],
            ),
        )],
    );
    match validate_config(&c) {
        Err(ConfigError::ValidationList(v)) => assert_eq!(
            v,
            vec![
                "fiber_type 't': references non-existent source 'ghost'".to_string(),
                "source 'app': timestamp pattern must contain named capture group 'ts': ^\\S+".to_string(),
                "fiber_type 't': duplicate attribute name 'id'".to_string(),
                "fiber_type 't', source 'app', pattern 0: release_matching_peer_keys contains 'id' which is not a capture group in the pattern".to_string(),
                "fiber_type 't', source 'app', pattern 0: release_matching_peer_keys contains 'id' which is not marked as a key".to_string(),
                "fiber_type 't', source 'app', pattern 0: release_self_keys contains 'zz' which is not a defined attribute".to_string(),
                "fiber_type 't': derived attribute 'd' references non-existent attribute 'nope'".to_string(),
                "fiber_type 't': circular dependency in derived attributes: cycle involving: ".to_string(),
            ]
        ),
        _ => panic!("expected validation errors"),
    }
}

#[test]
fn error_message_lists_every_failure() {
    let e = ConfigError::ValidationList(vec!["a".to_string(), "b".to_string()]);
    assert_eq!(e.message(), "validation failed:\na\nb");
}

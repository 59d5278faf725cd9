use noil::sequencer::local::Sequencer;
use noil::sequencer::merge::{MergeState, SequencerError, SequencerRunConfig, SequencerStep, SourceEvent};
use noil::source::reader::LogRecord;

fn ts(s: &str) -> i128 {
    chrono::DateTime::parse_from_rfc3339(s).unwrap().timestamp_nanos_opt().unwrap() as i128
}

fn make_record(source: &str, timestamp: &str, text: &str) -> LogRecord {
    LogRecord {
        id: uuid::Uuid::new_v4().as_u128(),
        timestamp: ts(timestamp),
        source_id: source.to_string(),
        raw_text: text.to_string(),
        file_offset: 0,
    }
}

fn s(x: &str) -> String {
    x.to_string()
}

#[test]
fn test_sequencer_basic_ordering() {
    let mut seq = Sequencer::new(vec![s("source1"), s("source2")], 0);

    seq.push(make_record("source1", "2025-12-04T10:00:02Z", "source1 line 2"));
    seq.push(make_record("source2", "2025-12-04T10:00:01Z", "source2 line 1"));
    seq.push(make_record("source1", "2025-12-04T10:00:03Z", "source1 line 3"));

    seq.update_watermark(&s("source1"), ts("2025-12-04T10:00:04Z"));
    seq.update_watermark(&s("source2"), ts("2025-12-04T10:00:02Z"));

    let ready = seq.emit_ready();
    assert_eq!(ready.len(), 1);
    assert_eq!(ready[0].raw_text, "source2 line 1");

    seq.update_watermark(&s("source2"), ts("2025-12-04T10:00:05Z"));

    let ready = seq.emit_ready();
    assert_eq!(ready.len(), 2);
    assert_eq!(ready[0].raw_text, "source1 line 2");
    assert_eq!(ready[1].raw_text, "source1 line 3");
}

#[test]
fn test_no_watermarks_no_emit() {
    let mut seq = Sequencer::new(vec![s("source1")], 0);
    seq.push(make_record("source1", "2025-12-04T10:00:01Z", "source1 line 1"));
    let ready = seq.emit_ready();
    assert_eq!(ready.len(), 0);
}

#[test]
fn test_safety_margin() {
    let mut seq = Sequencer::new(vec![s("source1")], 5_000_000_000);

    seq.push(make_record("source1", "2025-12-04T10:00:01Z", "source1 line 1"));
    seq.push(make_record("source1", "2025-12-04T10:00:03Z", "source1 line 2"));

    seq.update_watermark(&s("source1"), ts("2025-12-04T10:00:10Z"));

    let ready = seq.emit_ready();
    assert_eq!(ready.len(), 2);
}

#[test]
fn test_mark_source_done() {
    let mut seq = Sequencer::new(vec![s("source1"), s("source2")], 0);

    seq.push(make_record("source1", "2025-12-04T10:00:01Z", "source1 line 1"));

    seq.update_watermark(&s("source1"), ts("2025-12-04T10:00:10Z"));

    let ready = seq.emit_ready();
    assert_eq!(ready.len(), 0);

    seq.mark_source_done(&s("source2"));

    let ready = seq.emit_ready();
    assert_eq!(ready.len(), 1);
}

#[test]
fn test_all_sources_done() {
    let mut seq = Sequencer::new(vec![s("source1"), s("source2")], 0);

    assert!(!seq.all_sources_done());

    seq.mark_source_done(&s("source1"));
    assert!(!seq.all_sources_done());

    seq.mark_source_done(&s("source2"));
    assert!(seq.all_sources_done());
}

#[test]
fn test_flush_all() {
    let mut seq = Sequencer::new(vec![s("source1")], 0);

    seq.push(make_record("source1", "2025-12-04T10:00:03Z", "source1 line 3"));
    seq.push(make_record("source1", "2025-12-04T10:00:01Z", "source1 line 1"));
    seq.push(make_record("source1", "2025-12-04T10:00:02Z", "source1 line 2"));

    let all = seq.flush_all();
    assert_eq!(all.len(), 3);
    assert_eq!(all[0].raw_text, "source1 line 1");
    assert_eq!(all[1].raw_text, "source1 line 2");
    assert_eq!(all[2].raw_text, "source1 line 3");

    assert_eq!(seq.buffered_count(), 0);
}

#[test]
fn test_multiple_sources_interleaved() {
    let mut seq = Sequencer::new(vec![s("source1"), s("source2"), s("source3")], 0);

    seq.push(make_record("source1", "2025-12-04T10:00:01Z", "s1-1"));
    seq.push(make_record("source2", "2025-12-04T10:00:02Z", "s2-1"));
    seq.push(make_record("source3", "2025-12-04T10:00:03Z", "s3-1"));
    seq.push(make_record("source1", "2025-12-04T10:00:04Z", "s1-2"));
    seq.push(make_record("source2", "2025-12-04T10:00:05Z", "s2-2"));

    seq.update_watermark(&s("source1"), ts("2025-12-04T10:00:04Z"));
    seq.update_watermark(&s("source2"), ts("2025-12-04T10:00:05Z"));
    seq.update_watermark(&s("source3"), ts("2025-12-04T10:00:04Z"));

    let ready = seq.emit_ready();
    assert_eq!(ready.len(), 3);
    assert_eq!(ready[0].raw_text, "s1-1");
    assert_eq!(ready[1].raw_text, "s2-1");
    assert_eq!(ready[2].raw_text, "s3-1");

    seq.update_watermark(&s("source1"), ts("2025-12-04T10:00:05Z"));
    seq.update_watermark(&s("source2"), ts("2025-12-04T10:00:06Z"));
    seq.update_watermark(&s("source3"), ts("2025-12-04T10:00:10Z"));

    let ready = seq.emit_ready();
    assert_eq!(ready.len(), 1);
    assert_eq!(ready[0].raw_text, "s1-2");

    seq.update_watermark(&s("source1"), ts("2025-12-04T10:00:10Z"));

    let ready = seq.emit_ready();
    assert_eq!(ready.len(), 1);
    assert_eq!(ready[0].raw_text, "s2-2");
}

#[test]
fn test_buffered_count() {
    let mut seq = Sequencer::new(vec![s("source1")], 0);

    assert_eq!(seq.buffered_count(), 0);

    seq.push(make_record("source1", "2025-12-04T10:00:01Z", "source1 line 1"));
    assert_eq!(seq.buffered_count(), 1);

    seq.push(make_record("source1", "2025-12-04T10:00:02Z", "source1 line 2"));
    assert_eq!(seq.buffered_count(), 2);

    seq.update_watermark(&s("source1"), ts("2025-12-04T10:00:10Z"));
    let _ready = seq.emit_ready();
    assert_eq!(seq.buffered_count(), 0);
}

#[test]
fn equal_timestamps_keep_arrival_order() {
    let mut seq = Sequencer::new(vec![s("a")], 0);
    seq.push(make_record("a", "2025-12-04T10:00:01Z", "first"));
    seq.push(make_record("a", "2025-12-04T10:00:01Z", "second"));
    let all = seq.flush_all();
    assert_eq!(all[0].raw_text, "first");
    assert_eq!(all[1].raw_text, "second");
}

#[test]
fn checkpoint_restores_watermarks() {
    let mut seq = Sequencer::new(vec![s("a"), s("b")], 0);
    seq.update_watermark(&s("a"), ts("2025-12-04T10:00:05Z"));
    let cp = seq.create_checkpoint();
    assert_eq!(cp.watermarks.len(), 1);
    let mut other = Sequencer::new(vec![s("a"), s("b")], 0);
    other.restore_from_checkpoint(&cp);
    other.push(make_record("a", "2025-12-04T10:00:01Z", "x"));
    other.update_watermark(&s("b"), ts("2025-12-04T10:00:09Z"));
    assert_eq!(other.emit_ready().len(), 1);
}

fn run_merge(sources: Vec<Vec<(&str, &str)>>) -> Vec<String> {
    let ids: Vec<String> = (0..sources.len()).map(|i| format!("source{}", i + 1)).collect();
    let config = SequencerRunConfig { safety_margin: 0, emit_interval: 10_000_000 };
    let mut state = MergeState::start(ids.clone(), &config).ok().unwrap();
    let mut out = Vec::new();
    let longest = sources.iter().map(|v| v.len()).max().unwrap_or(0);
    for k in 0..=longest {
        for (i, lines) in sources.iter().enumerate() {
            let event = if k < lines.len() {
                let (t, text) = lines[k];
                SourceEvent::Record { record: make_record(&ids[i], t, text), watermark: ts(t) }
            } else if k == lines.len() {
                SourceEvent::Done
            } else {
                continue;
            };
            match state.on_event(i, event) {
                SequencerStep::Emit(v) => out.extend(v.into_iter().map(|r| r.raw_text)),
                SequencerStep::Finish(v) => {
                    out.extend(v.into_iter().map(|r| r.raw_text));
                    return out;
                }
                SequencerStep::Fail(_) => panic!("unexpected failure"),
            }
        }
    }
    out
}

#[test]
fn test_single_source() {
    let out = run_merge(vec![vec![
        ("2025-12-04T10:00:00Z", "Line 1"),
        ("2025-12-04T10:00:01Z", "Line 2"),
        ("2025-12-04T10:00:02Z", "Line 3"),
    ]]);
    assert_eq!(out, vec!["Line 1", "Line 2", "Line 3"]);
}

#[test]
fn test_two_sources_merged() {
    let out = run_merge(vec![
        vec![("2025-12-04T10:00:00Z", "S1-1"), ("2025-12-04T10:00:02Z", "S1-2"), ("2025-12-04T10:00:04Z", "S1-3")],
        vec![("2025-12-04T10:00:01Z", "S2-1"), ("2025-12-04T10:00:03Z", "S2-2"), ("2025-12-04T10:00:05Z", "S2-3")],
    ]);
    assert_eq!(out, vec!["S1-1", "S2-1", "S1-2", "S2-2", "S1-3", "S2-3"]);
}

#[test]
fn test_three_sources() {
    let out = run_merge(vec![
        vec![("2025-12-04T10:00:00Z", "S1-1"), ("2025-12-04T10:00:03Z", "S1-2")],
        vec![("2025-12-04T10:00:01Z", "S2-1"), ("2025-12-04T10:00:04Z", "S2-2")],
        vec![("2025-12-04T10:00:02Z", "S3-1"), ("2025-12-04T10:00:05Z", "S3-2")],
    ]);
    assert_eq!(out, vec!["S1-1", "S2-1", "S3-1", "S1-2", "S2-2", "S3-2"]);
}

#[test]
fn test_empty_source() {
    let out = run_merge(vec![vec![]]);
    assert!(out.is_empty());
}

#[test]
fn merge_without_sources_is_refused() {
    let config = SequencerRunConfig::default();
    match MergeState::start(Vec::new(), &config) {
        Err(SequencerError::SourceReader(m)) => assert_eq!(m, "no sources provided"),
        _ => panic!("expected refusal"),
    }
}

#[test]
fn merge_source_error_stops() {
    let config = SequencerRunConfig::default();
    let mut state = MergeState::start(vec![s("a")], &config).ok().unwrap();
    match state.on_event(0, SourceEvent::Error(s("boom"))) {
        SequencerStep::Fail(SequencerError::SourceReader(m)) => assert_eq!(m, "boom"),
        _ => panic!("expected failure"),
    }
}

#[test]
fn run_config_from_configuration() {
    let c = noil::config::types::SequencerConfig { batch_epoch_duration: None, watermark_safety_margin: Some(250_000_000) };
    let rc = SequencerRunConfig::from_config(&c);
    assert_eq!(rc.safety_margin, 250_000_000);
    assert_eq!(rc.emit_interval, 100_000_000);
    let d = noil::config::types::SequencerConfig { batch_epoch_duration: None, watermark_safety_margin: None };
    assert_eq!(SequencerRunConfig::from_config(&d).safety_margin, 1_000_000_000);
}

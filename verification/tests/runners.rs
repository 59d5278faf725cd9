use noil::collector::batch_buffer::BatchBuffer;
use noil::collector::epoch_batcher::EpochBatcher;
use noil::collector::runner::{min_watermark, note_source_watermark, rewind, CollectorError, CollectorRunner};
use noil::config::types::{
    BackpressureConfig, BackpressureStrategy, CheckpointConfig, Config, ErrorConfig, ParseErrorStrategy, PipelineConfig,
    SequencerConfig, StorageConfig, WebConfig,
};
use noil::parent::runner::{ParentError, ParentRunner};
use noil::config::types::BufferStrategy;
use noil::parent::runner::AcknowledgmentState;
use noil::pipeline::runner::{stored_log, Batcher};
use noil::reprocessing::ReprocessTally;
use noil::source::reader::LogRecord;
use noil::storage::checkpoint::{accept_version, CheckpointTimer, CollectorSequencerCheckpoint, CURRENT_VERSION};

const MILLI: i128 = 1_000_000;

#[test]
fn test_checkpoint_should_save() {
    // Interval of 100 ms, timer started at t = 0.
    let mut timer = CheckpointTimer::new(100 * MILLI as u128, 0);
    assert!(!timer.should_save(0));
    assert!(!timer.should_save(99 * MILLI));
    // 150 ms later a save is due.
    assert!(timer.should_save(150 * MILLI));
    // After a save, the next one waits a full interval again.
    timer.reset_timer(150 * MILLI);
    assert!(!timer.should_save(150 * MILLI));
    assert!(timer.should_save(250 * MILLI));
}

#[test]
fn test_checkpoint_version_mismatch() {
    // A checkpoint saved in another format is ignored.
    assert!(!accept_version(999, CURRENT_VERSION));
    assert!(accept_version(CURRENT_VERSION, CURRENT_VERSION));
}

#[test]
fn batcher_hands_out_full_batches_in_order() {
    let mut b: Batcher<u32> = Batcher::new(3);
    assert_eq!(b.add(vec![1, 2]), None);
    assert_eq!(b.add(vec![3, 4]), Some(vec![1, 2, 3, 4]));
    assert_eq!(b.add(vec![5]), None);
    assert_eq!(b.flush(), Some(vec![5]));
    assert_eq!(b.flush(), None);
}

#[test]
fn stored_log_keeps_the_record() {
    let record = LogRecord { id: 7, timestamp: 11, source_id: "s".to_string(), raw_text: "t".to_string(), file_offset: 3 };
    let s = stored_log(&record, 5, 13);
    assert_eq!(s.log_id, 7);
    assert_eq!(s.timestamp, 11);
    assert_eq!(s.source_id, "s");
    assert_eq!(s.raw_text, "t");
    assert_eq!(s.config_version, 5);
    assert_eq!(s.ingestion_time, 13);
}

#[test]
fn collector_watermark_is_the_smallest_known() {
    let mut ws = vec![("a".to_string(), None), ("b".to_string(), Some(20)), ("c".to_string(), Some(30))];
    assert_eq!(min_watermark(&ws), Some(20));
    note_source_watermark(&mut ws, &"a".to_string(), 5);
    assert_eq!(ws[0], ("a".to_string(), Some(5)));
    assert_eq!(min_watermark(&ws), Some(5));
    assert_eq!(min_watermark(&vec![("a".to_string(), None)]), None);
}

#[test]
fn rewind_restarts_numbering() {
    let mut batcher = EpochBatcher::new("collector1".to_string(), 10_000_000_000, 1);
    let mut buffer = BatchBuffer::new(3, BufferStrategy::Block);
    let r = rewind(&mut batcher, &mut buffer, Some(42), false);
    assert_eq!(r.old_sequence, 0);
    assert_eq!(r.new_sequence, 42);
    assert!(r.buffer_cleared);
    assert_eq!(batcher.sequence_counter(), 42);
    let r = rewind(&mut batcher, &mut buffer, None, true);
    assert_eq!(r.old_sequence, 42);
    assert_eq!(r.new_sequence, 0);
    assert!(!r.buffer_cleared);
}

#[test]
fn acknowledgments_gather_per_collector() {
    let mut st = AcknowledgmentState::new();
    let c1 = "c1".to_string();
    let c2 = "c2".to_string();
    st.add_pending(&c1, vec![1, 2]);
    st.add_pending(&c2, vec![7]);
    st.add_pending(&c1, vec![3]);
    let acks = st.take_pending();
    assert_eq!(acks, vec![(c1.clone(), vec![1, 2, 3]), (c2.clone(), vec![7])]);
    assert!(st.take_pending().is_empty());
}

#[test]
fn fetches_and_acknowledgments_update_the_checkpoint() {
    let mut st = AcknowledgmentState::new();
    let c1 = "c1".to_string();
    st.collector_checkpoints.push((
        c1.clone(),
        CollectorSequencerCheckpoint { collector_id: c1.clone(), last_sequence: 0, last_acknowledged_sequence: 0, watermark: None },
    ));
    st.record_fetch(&c1, 9, Some(100));
    assert_eq!(st.collector_checkpoints[0].1.last_sequence, 9);
    assert_eq!(st.collector_checkpoints[0].1.watermark, Some(100));
    st.record_fetch(&c1, 10, None);
    assert_eq!(st.collector_checkpoints[0].1.watermark, Some(100));
    st.record_acknowledged(&c1, &vec![4, 8, 6]);
    assert_eq!(st.collector_checkpoints[0].1.last_acknowledged_sequence, 8);
    // Unknown collectors are left alone.
    st.record_fetch(&"other".to_string(), 1, None);
    assert_eq!(st.collector_checkpoints.len(), 1);
}

#[test]
fn reprocessing_tally_reports_every_hundredth_log() {
    let mut t = ReprocessTally::new();
    let mut reports = 0;
    for _ in 0..250 {
        if t.log_done() {
            reports += 1;
        }
    }
    assert_eq!(reports, 2);
    let p = t.progress(1000);
    assert_eq!(p.logs_processed, 250);
    assert_eq!(p.logs_total, 1000);
    assert_eq!(p.fibers_created, 0);
}

fn plain_config() -> Config {
    Config {
        sources: vec![],
        fiber_types: vec![],
        auto_source_fibers: false,
        pipeline: PipelineConfig {
            backpressure: BackpressureConfig { strategy: BackpressureStrategy::Block, buffer_limit: 10000 },
            errors: ErrorConfig { on_parse_error: ParseErrorStrategy::Drop },
            checkpoint: CheckpointConfig { enabled: false, interval_seconds: 30 },
        },
        sequencer: SequencerConfig { batch_epoch_duration: None, watermark_safety_margin: None },
        storage: StorageConfig { path: "noil.duckdb".to_string(), batch_size: 1000, flush_interval_seconds: 1 },
        web: WebConfig { listen: "127.0.0.1:7104".to_string() },
    }
}

#[test]
fn collector_mode_needs_its_section() {
    match CollectorRunner::<u32>::new(plain_config(), None, 7) {
        Err(CollectorError::Config(m)) => assert_eq!(m, "collector config section missing"),
        _ => panic!("a missing collector section must be refused"),
    }
    match CollectorRunner::new(plain_config(), Some(5u32), 7) {
        Ok(runner) => {
            assert_eq!(runner.collector_config, 5);
            assert_eq!(runner.config_version, 7);
        },
        Err(_) => panic!("a collector section must be accepted"),
    }
}

#[test]
fn parent_mode_needs_its_section() {
    match ParentRunner::<u32>::new(plain_config(), None, 3) {
        Err(ParentError::Config(m)) => assert_eq!(m, "remote_collectors config section missing"),
        _ => panic!("a missing remote_collectors section must be refused"),
    }
    match ParentRunner::new(plain_config(), Some(9u32), 3) {
        Ok(runner) => {
            assert_eq!(runner.remote_collectors_config, 9);
            assert_eq!(runner.config_version, 3);
        },
        Err(_) => panic!("a remote_collectors section must be accepted"),
    }
}

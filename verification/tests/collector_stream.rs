use chrono::Utc;
use noil::collector::batch::{EpochInfo, LogBatch};
use noil::parent::collector_stream::CollectorStream;
use noil::source::reader::LogRecord;

fn log(text: &str, t: i128) -> LogRecord {
    LogRecord { id: 1, timestamp: t, source_id: "s".to_string(), raw_text: text.to_string(), file_offset: 0 }
}

fn batch(seq: u64, generation: u64, watermark: i128, logs: Vec<LogRecord>) -> LogBatch {
    LogBatch {
        batch_id: seq as u128,
        collector_id: "test-collector".to_string(),
        epoch: EpochInfo { start: 0, end: watermark, watermark, generation },
        logs,
        config_version: 1,
        sequence_num: seq,
    }
}

#[test]
fn test_stream_creation() {
    let stream = CollectorStream::new("test-collector".to_string());

    assert_eq!(stream.collector_id(), "test-collector");
    assert_eq!(stream.last_sequence(), 0);
    assert!(stream.watermark().is_none());
}

#[test]
fn test_watermark_lexicographic_comparison() {
    let now = Utc::now().timestamp_nanos_opt().unwrap() as i128;
    let gen0_time1: (u64, i128) = (0, now);
    let gen1_time0: (u64, i128) = (1, now - 3_600_000_000_000);

    assert!(gen1_time0 > gen0_time1);
}

#[test]
fn test_stats_reflect_closed_stream() {
    let mut stream = CollectorStream::new("test-collector".to_string());

    stream.close();

    let stats = stream.stats();
    assert!(stats.closed);
    assert_eq!(stats.queued_logs, 0);
}

#[test]
fn closed_stream_fetches_nothing() {
    let mut stream = CollectorStream::new("test-collector".to_string());
    stream.close();
    assert!(stream.fetch_request().is_none());
    assert!(stream.pop_queued_record().is_none());
}

#[test]
fn ingested_batches_queue_their_logs_in_order() {
    let mut stream = CollectorStream::new("test-collector".to_string());
    let n = stream.ingest_batches(vec![
        batch(1, 0, 100, vec![log("a", 10), log("b", 20)]),
        batch(2, 0, 200, vec![log("c", 150)]),
    ]);
    assert_eq!(n, 3);
    assert_eq!(stream.last_sequence(), 2);
    assert_eq!(stream.watermark_with_generation(), Some((0, 200)));
    assert_eq!(stream.pop_queued_record().unwrap().raw_text, "a");
    assert_eq!(stream.pop_queued_record().unwrap().raw_text, "b");
    assert_eq!(stream.pop_queued_record().unwrap().raw_text, "c");
    assert!(stream.pop_queued_record().is_none());
}

use noil::config::types::CollectorEndpoint;
use noil::parent::collector_client::{CollectorClient, RetryDecision, RetryState};

#[test]
fn test_client_constructs_correct_urls() {
    let config = CollectorEndpoint {
        id: "test-collector".to_string(),
        url: "http://localhost:7105".to_string(),
        retry_interval: 5_000_000_000,
        timeout: 30_000_000_000,
    };

    let client = CollectorClient::new(&config);
    assert_eq!(client.base_url, "http://localhost:7105");
    assert_eq!(client.collector_id, "test-collector");
    assert_eq!(client.batches_url(Some(7), 100), "http://localhost:7105/collector/batches?after=7&limit=100");
    assert_eq!(client.batches_url(None, 5), "http://localhost:7105/collector/batches?limit=5");
    assert_eq!(client.status_url(), "http://localhost:7105/collector/status");
}

#[test]
fn retries_double_the_wait_up_to_a_minute() {
    let config = CollectorEndpoint {
        id: "c".to_string(),
        url: "http://x".to_string(),
        retry_interval: 40_000_000_000,
        timeout: 1,
    };
    let client = CollectorClient::new(&config);
    let mut st = RetryState::start(&client);
    assert!(matches!(st.on_failure(3), RetryDecision::RetryAfter(40_000_000_000)));
    assert!(matches!(st.on_failure(3), RetryDecision::RetryAfter(60_000_000_000)));
    assert!(matches!(st.on_failure(3), RetryDecision::GiveUp));
}

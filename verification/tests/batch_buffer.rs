use chrono::{TimeZone, Utc};
use noil::collector::batch::{EpochInfo, LogBatch};
use noil::collector::batch_buffer::{BatchBuffer, BufferError};
use noil::config::types::BufferStrategy;

fn nanos(t: chrono::DateTime<Utc>) -> i128 {
    t.timestamp_nanos_opt().unwrap() as i128
}

fn make_batch(sequence_num: u64) -> LogBatch {
    let timestamp = Utc.with_ymd_and_hms(2026, 1, 28, 10, 0, 0).unwrap();
    LogBatch {
        batch_id: uuid::Uuid::new_v4().as_u128(),
        collector_id: "test".to_string(),
        epoch: EpochInfo {
            start: nanos(timestamp),
            end: nanos(timestamp + chrono::Duration::seconds(10)),
            watermark: nanos(timestamp + chrono::Duration::seconds(10)),
            generation: 0,
        },
        logs: Vec::new(),
        config_version: 1,
        sequence_num,
    }
}

#[test]
fn test_buffer_respects_max_epochs() {
    let mut buffer = BatchBuffer::new(3, BufferStrategy::Block);

    assert!(buffer.push(make_batch(0)).is_ok());
    assert!(buffer.push(make_batch(1)).is_ok());
    assert!(buffer.push(make_batch(2)).is_ok());

    assert!(matches!(buffer.push(make_batch(3)), Err(BufferError::BufferFull)));

    let stats = buffer.stats();
    assert_eq!(stats.current_epochs, 3);
    assert_eq!(stats.max_epochs, 3);
}

#[test]
fn test_drop_oldest_strategy() {
    let mut buffer = BatchBuffer::new(3, BufferStrategy::DropOldest);

    assert!(buffer.push(make_batch(0)).is_ok());
    assert!(buffer.push(make_batch(1)).is_ok());
    assert!(buffer.push(make_batch(2)).is_ok());

    assert!(buffer.push(make_batch(3)).is_ok());

    let stats = buffer.stats();
    assert_eq!(stats.current_epochs, 3);
    assert_eq!(stats.oldest_sequence, 1);
    assert_eq!(stats.newest_sequence, 3);
}

#[test]
fn test_wait_forever_strategy() {
    let mut buffer = BatchBuffer::new(3, BufferStrategy::WaitForever);

    assert!(buffer.push(make_batch(0)).is_ok());
    assert!(buffer.push(make_batch(1)).is_ok());
    assert!(buffer.push(make_batch(2)).is_ok());
    assert!(buffer.push(make_batch(3)).is_ok());
    assert!(buffer.push(make_batch(4)).is_ok());

    let stats = buffer.stats();
    assert_eq!(stats.current_epochs, 5);
    assert_eq!(stats.max_epochs, 3);
}

#[test]
fn test_get_batches_filters_correctly() {
    let mut buffer = BatchBuffer::new(10, BufferStrategy::Block);

    buffer.push(make_batch(5)).unwrap();
    buffer.push(make_batch(10)).unwrap();
    buffer.push(make_batch(15)).unwrap();
    buffer.push(make_batch(20)).unwrap();

    let batches = buffer.get_batches(Some(10), 10);
    assert_eq!(batches.len(), 2);
    assert_eq!(batches[0].sequence_num, 15);
    assert_eq!(batches[1].sequence_num, 20);
}

#[test]
fn test_get_batches_respects_limit() {
    let mut buffer = BatchBuffer::new(10, BufferStrategy::Block);

    buffer.push(make_batch(0)).unwrap();
    buffer.push(make_batch(1)).unwrap();
    buffer.push(make_batch(2)).unwrap();
    buffer.push(make_batch(3)).unwrap();

    let batches = buffer.get_batches(Some(0), 2);
    assert_eq!(batches.len(), 2);
    assert_eq!(batches[0].sequence_num, 1);
    assert_eq!(batches[1].sequence_num, 2);
}

#[test]
fn test_acknowledge_and_compact() {
    let mut buffer = BatchBuffer::new(10, BufferStrategy::Block);

    buffer.push(make_batch(0)).unwrap();
    buffer.push(make_batch(1)).unwrap();
    buffer.push(make_batch(2)).unwrap();
    buffer.push(make_batch(3)).unwrap();

    let ack_count = buffer.acknowledge(vec![0, 2]);
    assert_eq!(ack_count, 2);

    let stats = buffer.stats();
    assert_eq!(stats.acknowledged_count, 2);

    let removed = buffer.compact();
    assert_eq!(removed, 2);

    let stats = buffer.stats();
    assert_eq!(stats.current_epochs, 2);
    assert_eq!(stats.oldest_sequence, 1);
    assert_eq!(stats.newest_sequence, 3);
    assert_eq!(stats.acknowledged_count, 0);
}

#[test]
fn test_stats_accuracy() {
    let mut buffer = BatchBuffer::new(10, BufferStrategy::Block);

    let stats = buffer.stats();
    assert_eq!(stats.current_epochs, 0);
    assert_eq!(stats.oldest_sequence, 0);
    assert_eq!(stats.newest_sequence, 0);

    buffer.push(make_batch(100)).unwrap();
    buffer.push(make_batch(101)).unwrap();
    buffer.push(make_batch(102)).unwrap();

    let stats = buffer.stats();
    assert_eq!(stats.current_epochs, 3);
    assert_eq!(stats.oldest_sequence, 100);
    assert_eq!(stats.newest_sequence, 102);

    buffer.acknowledge(vec![101]);
    let stats = buffer.stats();
    assert_eq!(stats.acknowledged_count, 1);
}

#[test]
fn test_clear() {
    let mut buffer = BatchBuffer::new(10, BufferStrategy::Block);

    buffer.push(make_batch(0)).unwrap();
    buffer.push(make_batch(1)).unwrap();
    buffer.acknowledge(vec![0]);

    assert_eq!(buffer.stats().current_epochs, 2);
    assert_eq!(buffer.stats().acknowledged_count, 1);

    buffer.clear();

    assert_eq!(buffer.stats().current_epochs, 0);
    assert_eq!(buffer.stats().acknowledged_count, 0);
}

#[test]
fn acknowledging_unknown_sequence_removes_nothing() {
    let mut buffer = BatchBuffer::new(10, BufferStrategy::Block);
    buffer.push(make_batch(7)).unwrap();
    assert_eq!(buffer.acknowledge(vec![8, 9]), 2);
    assert_eq!(buffer.compact(), 0);
    assert_eq!(buffer.stats().current_epochs, 1);
}

#[test]
fn get_batches_without_cursor_starts_at_oldest() {
    let mut buffer = BatchBuffer::new(10, BufferStrategy::Block);
    buffer.push(make_batch(3)).unwrap();
    buffer.push(make_batch(4)).unwrap();
    let batches = buffer.get_batches(None, 10);
    assert_eq!(batches.len(), 2);
    assert_eq!(batches[0].sequence_num, 3);
}

use chrono::{DateTime, TimeZone, Utc};
use noil::collector::epoch_batcher::EpochBatcher;
use noil::source::reader::LogRecord;

const SECOND: u128 = 1_000_000_000;

fn nanos(t: DateTime<Utc>) -> i128 {
    t.timestamp_nanos_opt().unwrap() as i128
}

fn make_log(timestamp: DateTime<Utc>, text: &str) -> LogRecord {
    LogRecord {
        id: uuid::Uuid::new_v4().as_u128(),
        timestamp: nanos(timestamp),
        source_id: "test_source".to_string(),
        raw_text: text.to_string(),
        file_offset: 0,
    }
}

#[test]
fn test_epoch_batching_within_epoch() {
    let mut batcher = EpochBatcher::new("collector1".to_string(), 10 * SECOND, 1);

    let base = Utc.with_ymd_and_hms(2026, 1, 28, 10, 0, 0).unwrap();

    let batch1 = batcher.push(make_log(base, "log1"));
    assert!(batch1.is_none());

    let batch2 = batcher.push(make_log(base + chrono::Duration::seconds(5), "log2"));
    assert!(batch2.is_none());

    let batch3 = batcher.push(make_log(base + chrono::Duration::seconds(9), "log3"));
    assert!(batch3.is_none());

    let batch = batcher.flush_current(nanos(base + chrono::Duration::seconds(10))).unwrap();
    assert_eq!(batch.logs.len(), 3);
    assert_eq!(batch.sequence_num, 0);
    assert_eq!(batch.epoch.generation, 0);
}

#[test]
fn test_epoch_boundary_crossing() {
    let mut batcher = EpochBatcher::new("collector1".to_string(), 10 * SECOND, 1);

    let base = Utc.with_ymd_and_hms(2026, 1, 28, 10, 0, 0).unwrap();

    let batch1 = batcher.push(make_log(base, "log1"));
    assert!(batch1.is_none());

    let batch2 = batcher.push(make_log(base + chrono::Duration::seconds(15), "log2"));
    assert!(batch2.is_some());

    let completed = batch2.unwrap();
    assert_eq!(completed.logs.len(), 1);
    assert_eq!(completed.logs[0].raw_text, "log1");
    assert_eq!(completed.sequence_num, 0);

    let batch3 = batcher.flush_current(nanos(base + chrono::Duration::seconds(20))).unwrap();
    assert_eq!(batch3.logs.len(), 1);
    assert_eq!(batch3.logs[0].raw_text, "log2");
    assert_eq!(batch3.sequence_num, 1);
}

#[test]
fn test_sequence_increment() {
    let mut batcher = EpochBatcher::new("collector1".to_string(), 10 * SECOND, 1);

    let base = Utc.with_ymd_and_hms(2026, 1, 28, 10, 0, 0).unwrap();

    batcher.push(make_log(base, "log1"));
    let batch1 = batcher.push(make_log(base + chrono::Duration::seconds(10), "log2"));
    let batch2 = batcher.push(make_log(base + chrono::Duration::seconds(20), "log3"));
    let batch3 = batcher.flush_current(nanos(base + chrono::Duration::seconds(30)));

    assert_eq!(batch1.unwrap().sequence_num, 0);
    assert_eq!(batch2.unwrap().sequence_num, 1);
    assert_eq!(batch3.unwrap().sequence_num, 2);
}

#[test]
fn test_rewind_increments_generation() {
    let mut batcher = EpochBatcher::new("collector1".to_string(), 10 * SECOND, 1);

    let base = Utc.with_ymd_and_hms(2026, 1, 28, 10, 0, 0).unwrap();

    batcher.push(make_log(base, "log1"));
    let batch1 = batcher.flush_current(nanos(base + chrono::Duration::seconds(10))).unwrap();
    assert_eq!(batch1.epoch.generation, 0);
    assert_eq!(batch1.sequence_num, 0);

    batcher.rewind(0);

    batcher.push(make_log(base, "log2"));
    let batch2 = batcher.flush_current(nanos(base + chrono::Duration::seconds(10))).unwrap();
    assert_eq!(batch2.epoch.generation, 1);
    assert_eq!(batch2.sequence_num, 0);
}

#[test]
fn test_epoch_boundary_calculation() {
    let batcher = EpochBatcher::new("collector1".to_string(), 10 * SECOND, 1);

    let t1 = Utc.with_ymd_and_hms(2026, 1, 28, 10, 0, 5).unwrap();
    let start1 = batcher.epoch_start_for_timestamp(nanos(t1));
    assert_eq!(start1, nanos(Utc.with_ymd_and_hms(2026, 1, 28, 10, 0, 0).unwrap()));

    let t2 = Utc.with_ymd_and_hms(2026, 1, 28, 10, 0, 15).unwrap();
    let start2 = batcher.epoch_start_for_timestamp(nanos(t2));
    assert_eq!(start2, nanos(Utc.with_ymd_and_hms(2026, 1, 28, 10, 0, 10).unwrap()));
}

#[test]
fn epoch_start_is_the_boundary_before_dates_of_1969() {
    let batcher = EpochBatcher::new("collector1".to_string(), 10 * SECOND, 1);
    let t = nanos(Utc.with_ymd_and_hms(1969, 12, 31, 23, 59, 55).unwrap());
    assert_eq!(batcher.epoch_start_for_timestamp(t), -10 * SECOND as i128);
    let u = nanos(Utc.with_ymd_and_hms(1969, 12, 31, 23, 59, 45).unwrap());
    assert_eq!(batcher.epoch_start_for_timestamp(u), -20 * SECOND as i128);
}

#[test]
fn flush_of_empty_batcher_gives_nothing() {
    let mut batcher = EpochBatcher::new("collector1".to_string(), 10 * SECOND, 1);
    assert!(batcher.flush_current(0).is_none());
    assert_eq!(batcher.sequence_counter(), 0);
}

#[test]
fn epoch_start_rounds_down_before_1970() {
    let b = EpochBatcher::new("c".to_string(), 10 * SECOND, 1);
    assert_eq!(b.epoch_start_for_timestamp(-5_000_000_000), -10_000_000_000);
    assert_eq!(b.epoch_start_for_timestamp(-10_000_000_000), -10_000_000_000);
    assert_eq!(b.epoch_start_for_timestamp(-10_000_000_001), -20_000_000_000);
    assert_eq!(b.epoch_start_for_timestamp(15_000_000_000), 10_000_000_000);
    assert_eq!(b.epoch_start_for_timestamp(0), 0);
}

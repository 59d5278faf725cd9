use vstd::prelude::*;
use crate::fiber::session::AttributeValue;
use crate::time::{Nanos, Timestamp, valid_timestamp};

verus! {

/// Saved sequencer state: the watermark of each source that has one.
pub struct SequencerCheckpoint {
    pub watermarks: Vec<(String, Timestamp)>,
}

/// Saved state of one open fiber.
pub struct OpenFiberCheckpoint {
    pub fiber_id: u128,
    pub keys: Vec<(String, String)>,
    pub attributes: Vec<(String, AttributeValue)>,
    pub first_activity: Timestamp,
    pub last_activity: Timestamp,
    pub log_ids: Vec<u128>,
}

/// Saved state of a fiber type processor.
pub struct FiberProcessorCheckpoint {
    pub open_fibers: Vec<OpenFiberCheckpoint>,
    pub logical_clock: Timestamp,
}


/// The checkpoint format this library writes and reads.
pub const CURRENT_VERSION: u32 = 1;

/// The collector checkpoint format this library writes and reads.
pub const COLLECTOR_CHECKPOINT_VERSION: u32 = 1;

/// The parent checkpoint format this library writes and reads.
pub const PARENT_CHECKPOINT_VERSION: u32 = 1;

/// Errors of saving and loading checkpoints.
#[derive(Debug)]
pub enum CheckpointError {
    /// The store failed; its message.
    Storage(String),
    InvalidVersion(u32),
}

/// Saved reading position of a source.
pub struct SourceCheckpoint {
    pub path: String,
    pub offset: u64,
    pub inode: u64,
    pub last_timestamp: Option<Timestamp>,
}

/// Everything saved of a running pipeline.
pub struct Checkpoint {
    pub version: u32,
    pub timestamp: Timestamp,
    pub config_version: u64,
    pub sources: Vec<(String, SourceCheckpoint)>,
    pub sequencer: SequencerCheckpoint,
    pub fiber_processors: Vec<(String, FiberProcessorCheckpoint)>,
}

/// Saved state of a collector's epoch batcher.
pub struct EpochBatcherCheckpoint {
    pub sequence_counter: u64,
    pub rewind_generation: u64,
    pub current_epoch: Option<EpochBuilderCheckpoint>,
}

/// Saved state of the epoch being built.
pub struct EpochBuilderCheckpoint {
    pub start: Timestamp,
    pub end: Timestamp,
    pub log_count: usize,
}

/// Saved state of a collector's batch buffer.
pub struct BatchBufferCheckpoint {
    pub oldest_sequence: u64,
    pub newest_sequence: u64,
    pub unacknowledged_count: usize,
}

/// Everything saved of a collector.
pub struct CollectorCheckpoint {
    pub version: u32,
    pub timestamp: Timestamp,
    pub config_version: u64,
    pub collector_id: String,
    pub sources: Vec<(String, SourceCheckpoint)>,
    pub sequencer: SequencerCheckpoint,
    pub epoch_batcher: EpochBatcherCheckpoint,
    pub batch_buffer: BatchBufferCheckpoint,
}

/// Saved state of the stream from one collector.
pub struct CollectorSequencerCheckpoint {
    pub collector_id: String,
    pub last_sequence: u64,
    pub last_acknowledged_sequence: u64,
    pub watermark: Option<Timestamp>,
}

/// Everything saved of a parent.
pub struct ParentCheckpoint {
    pub version: u32,
    pub timestamp: Timestamp,
    pub config_version: u64,
    pub collectors: Vec<(String, CollectorSequencerCheckpoint)>,
    pub sequencer: SequencerCheckpoint,
    pub fiber_processors: Vec<(String, FiberProcessorCheckpoint)>,
}

/// A loaded checkpoint is used only when its format is the one expected;
/// otherwise it is ignored.
pub fn accept_version(found: u32, expected: u32) -> (b: bool)
    ensures
        b == (found == expected),
{
    found == expected
}

/// Keeps the time of the last save and says when the next one is due
/// (times in nanoseconds).
pub struct CheckpointTimer {
    pub interval: Nanos,
    pub last_save: Timestamp,
}

impl CheckpointTimer {
    /// A timer that counts from `now`.
    pub fn new(interval: Nanos, now: Timestamp) -> (t: CheckpointTimer)
        ensures
            t.interval == interval,
            t.last_save == now,
    {
        CheckpointTimer { interval, last_save: now }
    }

    /// A save is due once `interval` has passed since the last one.
    pub fn should_save(&self, now: Timestamp) -> (b: bool)
        requires
            valid_timestamp(now),
            valid_timestamp(self.last_save),
        ensures
            b == (now - self.last_save >= self.interval),
    {
        if now < self.last_save {
            return false;
        }
        let elapsed: u128 = (now - self.last_save) as u128;
        elapsed >= self.interval
    }

    /// A save happened at `now`: the next one is due an interval later.
    pub fn reset_timer(&mut self, now: Timestamp)
        ensures
            final(self).last_save == now,
            final(self).interval == old(self).interval,
    {
        self.last_save = now;
    }
}

} // verus!

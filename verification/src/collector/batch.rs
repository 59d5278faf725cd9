use vstd::prelude::*;
use crate::source::reader::LogRecord;
use crate::time::Timestamp;

verus! {

/// A batch of logs of one epoch, as a collector hands it out.
pub struct LogBatch {
    /// Unique batch id (for deduplication).
    pub batch_id: u128,
    /// The collector that made the batch.
    pub collector_id: String,
    /// The epoch: time window and watermark.
    pub epoch: EpochInfo,
    /// The logs of the batch.
    pub logs: Vec<LogRecord>,
    /// The configuration version the logs were read with.
    pub config_version: u64,
    /// Sequence number of the batch for its collector: from 0, one more per batch.
    pub sequence_num: u64,
}

/// The time window of a batch.
#[derive(Clone, Copy, Debug, PartialEq, Eq, Structural)]
pub struct EpochInfo {
    /// Start of the window (inclusive).
    pub start: Timestamp,
    /// End of the window (exclusive).
    pub end: Timestamp,
    /// No later log of the collector is earlier than this.
    pub watermark: Timestamp,
    /// Rewind generation.
    pub generation: u64,
}

/// A copy of a list of log records.
pub fn clone_records(v: &Vec<LogRecord>) -> (r: Vec<LogRecord>)
    ensures
        r@ == v@,
{
    let mut r: Vec<LogRecord> = Vec::new();
    let mut i: usize = 0;
    while i < v.len()
        invariant
            i <= v@.len(),
            r@ == v@.take(i as int),
        decreases v@.len() - i,
    {
        r.push(v[i].clone());
        assert(r@ =~= v@.take(i as int + 1));
        i += 1;
    }
    assert(v@.take(v@.len() as int) =~= v@);
    r
}

/// A batch as the contracts see it.
pub open spec fn batch_view(b: LogBatch) -> (u128, Seq<char>, EpochInfo, Seq<LogRecord>, u64, u64) {
    (b.batch_id, b.collector_id@, b.epoch, b.logs@, b.config_version, b.sequence_num)
}

impl Clone for LogBatch {
    fn clone(&self) -> (r: Self)
        ensures
            batch_view(r) == batch_view(*self),
            r.sequence_num == self.sequence_num,
    {
        let logs = clone_records(&self.logs);
        LogBatch {
            batch_id: self.batch_id,
            collector_id: self.collector_id.clone(),
            epoch: self.epoch,
            logs,
            config_version: self.config_version,
            sequence_num: self.sequence_num,
        }
    }
}

} // verus!

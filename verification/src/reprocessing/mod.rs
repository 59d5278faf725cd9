use vstd::prelude::*;
use crate::fiber::processor::ProcessResult;
use crate::source::reader::LogRecord;
use crate::storage::traits::StoredLog;
use crate::time::Timestamp;

verus! {

/// Where a reprocessing task stands.
pub enum ReprocessStatus {
    Running,
    Completed,
    Failed(String),
    Cancelled,
}

/// The figures of a reprocessing task.
#[derive(Clone, Copy, Debug)]
pub struct ReprocessProgress {
    pub logs_processed: usize,
    pub logs_total: usize,
    pub fibers_created: usize,
    pub memberships_written: usize,
}

impl Default for ReprocessProgress {
    fn default() -> (p: ReprocessProgress)
        ensures
            p.logs_processed == 0,
            p.logs_total == 0,
            p.fibers_created == 0,
            p.memberships_written == 0,
    {
        ReprocessProgress { logs_processed: 0, logs_total: 0, fibers_created: 0, memberships_written: 0 }
    }
}

/// A reprocessing task.
pub struct ReprocessState {
    pub task_id: u128,
    pub started_at: Timestamp,
    pub status: ReprocessStatus,
    pub config_version: u64,
    pub time_range: Option<(Timestamp, Timestamp)>,
    pub clear_old_results: bool,
    pub progress: ReprocessProgress,
}

/// Errors of reprocessing.
#[derive(Debug)]
pub enum ReprocessError {
    Storage(String),
    Processor(String),
    Cancelled,
    Config(String),
}

/// How many logs are read from the store at a time.
pub const REPROCESS_BATCH_SIZE: usize = 1000;

/// A stored log as a record to process again (it has no file offset).
pub fn record_of(stored: &StoredLog) -> (r: LogRecord)
    ensures
        r.id == stored.log_id,
        r.timestamp == stored.timestamp,
        r.source_id@ == stored.source_id@,
        r.raw_text@ == stored.raw_text@,
        r.file_offset == 0,
{
    LogRecord {
        id: stored.log_id,
        timestamp: stored.timestamp,
        source_id: stored.source_id.clone(),
        raw_text: stored.raw_text.clone(),
        file_offset: 0,
    }
}

/// The fibers a list of results creates.
pub open spec fn fibers_created(rs: Seq<ProcessResult>) -> nat
    decreases rs.len(),
{
    if rs.len() == 0 { 0 } else { fibers_created(rs.drop_last()) + rs.last().new_fibers@.len() }
}

/// The memberships a list of results writes.
pub open spec fn memberships_written(rs: Seq<ProcessResult>) -> nat
    decreases rs.len(),
{
    if rs.len() == 0 { 0 } else { memberships_written(rs.drop_last()) + rs.last().memberships@.len() }
}

/// The running counts of a reprocessing task.
pub struct ReprocessTally {
    pub processed: usize,
    pub fibers_created: usize,
    pub memberships: usize,
}

impl ReprocessTally {
    pub fn new() -> (t: ReprocessTally)
        ensures
            t.processed == 0 && t.fibers_created == 0 && t.memberships == 0,
    {
        ReprocessTally { processed: 0, fibers_created: 0, memberships: 0 }
    }

    /// Counts what the results of one log (or of the final flush) create
    /// and write.
    pub fn add_results(&mut self, results: &Vec<ProcessResult>)
        requires
            old(self).fibers_created + fibers_created(results@) <= usize::MAX,
            old(self).memberships + memberships_written(results@) <= usize::MAX,
        ensures
            final(self).processed == old(self).processed,
            final(self).fibers_created == old(self).fibers_created + fibers_created(results@),
            final(self).memberships == old(self).memberships + memberships_written(results@),
    {
        let mut i: usize = 0;
        while i < results.len()
            invariant
                i <= results@.len(),
                self.processed == old(self).processed,
                self.fibers_created == old(self).fibers_created + fibers_created(results@.take(i as int)),
                self.memberships == old(self).memberships + memberships_written(results@.take(i as int)),
                old(self).fibers_created + fibers_created(results@) <= usize::MAX,
                old(self).memberships + memberships_written(results@) <= usize::MAX,
            decreases results@.len() - i,
        {
            assert(results@.take(i as int + 1).drop_last() =~= results@.take(i as int));
            proof {
                lemma_counts_prefix(results@, i as int + 1);
            }
            self.fibers_created = self.fibers_created + results[i].new_fibers.len();
            self.memberships = self.memberships + results[i].memberships.len();
            i += 1;
        }
        assert(results@.take(results@.len() as int) =~= results@);
    }

    /// One more log was processed; returns whether the progress is due to
    /// be published (every hundredth log).
    pub fn log_done(&mut self) -> (report: bool)
        requires
            old(self).processed < usize::MAX,
        ensures
            final(self).processed == old(self).processed + 1,
            final(self).fibers_created == old(self).fibers_created,
            final(self).memberships == old(self).memberships,
            report == (final(self).processed % 100 == 0),
    {
        self.processed = self.processed + 1;
        self.processed % 100 == 0
    }

    /// The progress to publish while running (the total is not known yet).
    pub fn progress(&self, logs_total: usize) -> (p: ReprocessProgress)
        ensures
            p.logs_processed == self.processed,
            p.logs_total == logs_total,
            p.fibers_created == self.fibers_created,
            p.memberships_written == self.memberships,
    {
        ReprocessProgress {
            logs_processed: self.processed,
            logs_total,
            fibers_created: self.fibers_created,
            memberships_written: self.memberships,
        }
    }
}

proof fn lemma_counts_prefix(rs: Seq<ProcessResult>, k: int)
    requires
        0 <= k <= rs.len(),
    ensures
        fibers_created(rs.take(k)) <= fibers_created(rs),
        memberships_written(rs.take(k)) <= memberships_written(rs),
    decreases rs.len() - k,
{
    if k < rs.len() {
        lemma_counts_prefix(rs, k + 1);
        assert(rs.take(k + 1).drop_last() =~= rs.take(k));
    } else {
        assert(rs.take(k) =~= rs);
    }
}

} // verus!

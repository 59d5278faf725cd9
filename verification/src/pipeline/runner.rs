use vstd::prelude::*;
use crate::fiber::processor::ProcessResult;
use crate::source::reader::LogRecord;
use crate::storage::traits::{FiberMembership, FiberRecord, StoredLog};
use crate::time::Timestamp;

verus! {

/// Errors of the pipeline stages.
#[derive(Debug)]
pub enum PipelineError {
    /// The store failed; its message.
    Storage(String),
    ChannelSend,
    ChannelReceive,
    FiberProcessor(String),
    Sequencer(String),
}

/// What the fiber processor hands the storage writer after a log.
pub struct FiberUpdate {
    pub memberships: Vec<FiberMembership>,
    pub new_fibers: Vec<FiberRecord>,
    pub updated_fibers: Vec<FiberRecord>,
    pub closed_fiber_ids: Vec<u128>,
}

impl From<ProcessResult> for FiberUpdate {
    /// The changes of a processing result (merged fibers are not stored).
    fn from(result: ProcessResult) -> (u: FiberUpdate) {
        FiberUpdate {
            memberships: result.memberships,
            new_fibers: result.new_fibers,
            updated_fibers: result.updated_fibers,
            closed_fiber_ids: result.closed_fiber_ids,
        }
    }
}

impl vstd::std_specs::convert::FromSpecImpl<ProcessResult> for FiberUpdate {
    open spec fn obeys_from_spec() -> bool {
        true
    }

    open spec fn from_spec(result: ProcessResult) -> FiberUpdate {
        update_of(result)
    }
}

/// The update carrying the changes of a processing result.
pub open spec fn update_of(result: ProcessResult) -> FiberUpdate {
    FiberUpdate {
        memberships: result.memberships,
        new_fibers: result.new_fibers,
        updated_fibers: result.updated_fibers,
        closed_fiber_ids: result.closed_fiber_ids,
    }
}

/// A result is worth sending on when it changes something to store.
pub open spec fn has_changes(r: ProcessResult) -> bool {
    r.memberships@.len() > 0 || r.new_fibers@.len() > 0 || r.updated_fibers@.len() > 0 || r.closed_fiber_ids@.len() > 0
}

/// The results that change something to store, in order.
pub open spec fn results_to_send(rs: Seq<ProcessResult>) -> Seq<ProcessResult>
    decreases rs.len(),
{
    if rs.len() == 0 {
        Seq::empty()
    } else {
        let r = results_to_send(rs.drop_last());
        if has_changes(rs.last()) { r.push(rs.last()) } else { r }
    }
}

/// The updates to send for the results of one log, in order: one per
/// result that changes something to store.
pub fn updates_to_send(results: Vec<ProcessResult>) -> (out: Vec<FiberUpdate>)
    ensures
        out@.len() == results_to_send(results@).len(),
        forall|i: int| 0 <= i < out@.len() ==> #[trigger] out@[i] == update_of(results_to_send(results@)[i]),
{
    let ghost all = results@;
    let mut rest = results;
    let n = rest.len();
    let mut out: Vec<FiberUpdate> = Vec::new();
    let mut k: usize = 0;
    while rest.len() > 0
        invariant
            n == all.len(),
            all.len() == k + rest@.len(),
            rest@ == all.skip(k as int),
            out@.len() == results_to_send(all.take(k as int)).len(),
            forall|i: int| 0 <= i < out@.len() ==> #[trigger] out@[i] == update_of(results_to_send(all.take(k as int))[i]),
        decreases rest@.len(),
    {
        let ghost before = rest@;
        let r = rest.remove(0);
        assert(rest@ =~= all.skip(k as int + 1));
        assert(r == all[k as int]);
        assert(all.take(k as int + 1).drop_last() =~= all.take(k as int));
        let changed = r.memberships.len() > 0 || r.new_fibers.len() > 0 || r.updated_fibers.len() > 0
            || r.closed_fiber_ids.len() > 0;
        if changed {
            let u = FiberUpdate::from(r);
            out.push(u);
        }
        k += 1;
    }
    assert(all.take(k as int) =~= all);
    out
}

/// The stored form of a log record.
pub fn stored_log(log: &LogRecord, config_version: u64, ingestion_time: Timestamp) -> (s: StoredLog)
    ensures
        s.log_id == log.id,
        s.timestamp == log.timestamp,
        s.source_id@ == log.source_id@,
        s.raw_text@ == log.raw_text@,
        s.ingestion_time == ingestion_time,
        s.config_version == config_version,
{
    StoredLog {
        log_id: log.id,
        timestamp: log.timestamp,
        source_id: log.source_id.clone(),
        raw_text: log.raw_text.clone(),
        ingestion_time,
        config_version,
    }
}

/// Items gathered for writing in batches: a batch is written once it holds
/// `batch_size` items, or when a flush is due.
pub struct Batcher<T> {
    items: Vec<T>,
    batch_size: usize,
}

impl<T> Batcher<T> {
    /// The items gathered and not yet written, in order.
    pub closed spec fn pending(&self) -> Seq<T> {
        self.items@
    }

    pub closed spec fn size(&self) -> usize {
        self.batch_size
    }

    /// A full batcher never waits: what it holds is fewer than a batch.
    pub open spec fn wf(&self) -> bool {
        self.pending().len() < self.size() || self.size() == 0 && self.pending().len() == 0
    }

    pub fn new(batch_size: usize) -> (b: Self)
        ensures
            b.pending().len() == 0,
            b.size() == batch_size,
            b.wf(),
    {
        Batcher { items: Vec::new(), batch_size }
    }

    /// Gathers items; when a batch is full, everything gathered is handed
    /// out to be written, oldest first. Nothing is lost or reordered: what
    /// is handed out followed by what stays is what was held followed by
    /// the new items.
    pub fn add(&mut self, items: Vec<T>) -> (batch: Option<Vec<T>>)
        ensures
            final(self).size() == old(self).size(),
            final(self).wf(),
            match batch {
                Some(b) => b@ == old(self).pending() + items@ && final(self).pending().len() == 0
                    && b@.len() >= old(self).size(),
                None => final(self).pending() == old(self).pending() + items@
                    && final(self).pending().len() < old(self).size(),
            },
    {
        let mut items = items;
        let ghost start = self.items@;
        let ghost added = items@;
        let n = items.len();
        let mut k: usize = 0;
        while items.len() > 0
            invariant
                n == added.len(),
                k + items@.len() == added.len(),
                items@ == added.skip(k as int),
                self.items@ == start + added.take(k as int),
                self.batch_size == old(self).batch_size,
            decreases items@.len(),
        {
            let x = items.remove(0);
            assert(items@ =~= added.skip(k as int + 1));
            self.items.push(x);
            assert(self.items@ =~= start + added.take(k as int + 1));
            k += 1;
        }
        assert(added.take(k as int) =~= added);
        if self.items.len() >= self.batch_size {
            let mut out: Vec<T> = Vec::new();
            std::mem::swap(&mut out, &mut self.items);
            Some(out)
        } else {
            None
        }
    }

    /// The periodic flush: everything gathered, if anything is.
    pub fn flush(&mut self) -> (batch: Option<Vec<T>>)
        ensures
            final(self).size() == old(self).size(),
            final(self).pending().len() == 0,
            final(self).wf(),
            match batch {
                Some(b) => b@ == old(self).pending() && b@.len() > 0,
                None => old(self).pending().len() == 0,
            },
    {
        if self.items.len() == 0 {
            return None;
        }
        let mut out: Vec<T> = Vec::new();
        std::mem::swap(&mut out, &mut self.items);
        Some(out)
    }
}

} // verus!

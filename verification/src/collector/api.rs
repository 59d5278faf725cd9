use vstd::prelude::*;
use crate::collector::batch::{LogBatch, batch_view};
use crate::collector::batch_buffer::{BatchBuffer, BufferStats, batches_after};

verus! {

/// Errors of the collector's API.
#[derive(Debug)]
pub enum ApiError {
    BadRequest(String),
    InternalError(String),
}

/// The buffer figures a collector reports.
pub struct BufferStatusInfo {
    pub current_epochs: usize,
    pub max_epochs: usize,
    pub oldest_sequence: u64,
    pub newest_sequence: u64,
}

impl BufferStatusInfo {
    pub fn from_stats(s: &BufferStats) -> (i: BufferStatusInfo)
        ensures
            i.current_epochs == s.current_epochs,
            i.max_epochs == s.max_epochs,
            i.oldest_sequence == s.oldest_sequence,
            i.newest_sequence == s.newest_sequence,
    {
        BufferStatusInfo {
            current_epochs: s.current_epochs,
            max_epochs: s.max_epochs,
            oldest_sequence: s.oldest_sequence,
            newest_sequence: s.newest_sequence,
        }
    }
}

/// A page of batches: whether a full page came back (so more may follow),
/// and the sequence number of its last batch.
pub struct BatchesResponse {
    pub batches: Vec<LogBatch>,
    pub has_more: bool,
    pub next_sequence: Option<u64>,
}

/// The default page size of the batch listing.
pub fn default_limit() -> (n: usize)
    ensures
        n == 10,
{
    10
}

/// The page size served: between 1 and 100.
pub open spec fn served_limit(limit: usize) -> usize {
    if limit > 100 { 100 } else if limit < 1 { 1 } else { limit }
}

/// Serves a page of the batches after `after` (all when `None`).
pub fn get_batches(buffer: &BatchBuffer, after: Option<u64>, limit: usize) -> (r: BatchesResponse)
    ensures
        ({
            let all = batches_after(buffer.batches(), after);
            let l = served_limit(limit);
            let n = if l < all.len() { l as int } else { all.len() as int };
            &&& r.batches@.len() == n
            &&& forall|i: int| 0 <= i < n ==> #[trigger] batch_view(r.batches@[i]) == batch_view(all[i])
            &&& r.has_more == (n == l)
            &&& r.next_sequence == if n > 0 { Some(r.batches@[n - 1].sequence_num) } else { None }
        }),
{
    let l = if limit > 100 { 100 } else if limit < 1 { 1 } else { limit };
    let batches = buffer.get_batches(after, l);
    let has_more = batches.len() == l;
    let n = batches.len();
    let next_sequence = if n > 0 { Some(batches[n - 1].sequence_num) } else { None };
    BatchesResponse { batches, has_more, next_sequence }
}

/// The answer to an acknowledgment.
pub struct AcknowledgeResponse {
    pub acknowledged_count: usize,
    pub freed_buffer_space: usize,
}

/// Acknowledges batches; an empty list is refused.
pub fn acknowledge(buffer: &mut BatchBuffer, sequence_nums: Vec<u64>) -> (r: Result<AcknowledgeResponse, ApiError>)
    requires
        old(buffer).wf(),
    ensures
        final(buffer).wf(),
        sequence_nums@.len() == 0 ==> (r matches Err(ApiError::BadRequest(m)) && m@ == "sequence_nums cannot be empty"@)
            && final(buffer).acked() == old(buffer).acked(),
        sequence_nums@.len() > 0 ==> (r matches Ok(a) && a.acknowledged_count == sequence_nums@.len()
            && a.freed_buffer_space == sequence_nums@.len())
            && final(buffer).acked() == old(buffer).acked().union(sequence_nums@.to_set()),
        final(buffer).batches() == old(buffer).batches(),
{
    if sequence_nums.len() == 0 {
        return Err(ApiError::BadRequest("sequence_nums cannot be empty".to_string()));
    }
    let count = buffer.acknowledge(sequence_nums);
    Ok(AcknowledgeResponse { acknowledged_count: count, freed_buffer_space: count })
}

} // verus!

use vstd::prelude::*;
use crate::collector::batch::LogBatch;
use crate::collector::batch_buffer::BatchBuffer;
use crate::collector::epoch_batcher::EpochBatcher;
use crate::config::types::Config;
use crate::sequencer::merge::SequencerError;
use crate::source::reader::ReaderError;
use crate::storage::checkpoint::CheckpointError;
use crate::time::Timestamp;

verus! {

/// Errors of the collector mode.
pub enum CollectorError {
    Config(String),
    SourceReader(ReaderError),
    Sequencer(SequencerError),
    Server(String),
    Join(String),
    Checkpoint(CheckpointError),
    Storage(String),
}

/// The collector mode, set up from a configuration and its collector
/// section (of type `S`).
pub struct CollectorRunner<S> {
    pub config: Config,
    pub collector_config: S,
    pub config_version: u64,
}

impl<S> CollectorRunner<S> {
    /// Sets up the collector mode; the configuration must have a collector
    /// section.
    pub fn new(config: Config, collector: Option<S>, config_version: u64) -> (r: Result<Self, CollectorError>)
        ensures
            match collector {
                Some(c) => r matches Ok(x) && x.collector_config == c && x.config_version == config_version && x.config == config,
                None => r matches Err(CollectorError::Config(m)) && m@ == "collector config section missing"@,
            },
    {
        match collector {
            Some(c) => Ok(CollectorRunner { config, collector_config: c, config_version }),
            None => Err(CollectorError::Config(String::from_str("collector config section missing"))),
        }
    }
}

/// The answer to a rewind.
pub struct RewindResult {
    pub old_sequence: u64,
    pub new_sequence: u64,
    pub buffer_cleared: bool,
}

/// Rewinds the collector: batches are numbered again from the target
/// sequence (0 when none is given) in a new generation, and the buffered
/// batches are dropped unless they are to be kept. The result reports the
/// sequence number the next batch would have had before the rewind.
pub fn rewind(
    batcher: &mut EpochBatcher,
    buffer: &mut BatchBuffer,
    target_sequence: Option<u64>,
    preserve_buffer: bool,
) -> (r: RewindResult)
    requires
        old(batcher).wf(),
        old(batcher).generation() < u64::MAX,
    ensures
        final(batcher).wf(),
        final(batcher).counter() == r.new_sequence,
        final(batcher).generation() == old(batcher).generation() + 1,
        final(batcher).current() is None,
        r.new_sequence == match target_sequence { Some(s) => s, None => 0 },
        r.old_sequence == old(batcher).counter(),
        r.buffer_cleared == !preserve_buffer,
        !preserve_buffer ==> final(buffer).batches().len() == 0,
        preserve_buffer ==> *final(buffer) == *old(buffer),
{
    let old_seq = batcher.sequence_counter();
    let new_seq = match target_sequence {
        Some(s) => s,
        None => 0,
    };
    batcher.rewind(new_seq);
    if !preserve_buffer {
        buffer.clear();
    }
    RewindResult { old_sequence: old_seq, new_sequence: new_seq, buffer_cleared: !preserve_buffer }
}

/// The smallest watermark among the sources that have one.
pub open spec fn min_known(ws: Seq<(String, Option<Timestamp>)>) -> Option<Timestamp>
    decreases ws.len(),
{
    if ws.len() == 0 {
        None
    } else {
        let r = min_known(ws.drop_last());
        match ws.last().1 {
            Some(w) => match r {
                Some(m) => Some(if w < m { w } else { m }),
                None => Some(w),
            },
            None => r,
        }
    }
}

/// The collector's watermark: the smallest of its sources' watermarks.
pub fn min_watermark(ws: &Vec<(String, Option<Timestamp>)>) -> (r: Option<Timestamp>)
    ensures
        r == min_known(ws@),
{
    let mut m: Option<Timestamp> = None;
    let mut i: usize = 0;
    while i < ws.len()
        invariant
            i <= ws@.len(),
            m == min_known(ws@.take(i as int)),
        decreases ws@.len() - i,
    {
        assert(ws@.take(i as int + 1).drop_last() =~= ws@.take(i as int));
        match ws[i].1 {
            Some(w) => {
                m = match m {
                    Some(x) => Some(if w < x { w } else { x }),
                    None => Some(w),
                };
            },
            None => {},
        }
        i += 1;
    }
    assert(ws@.take(ws@.len() as int) =~= ws@);
    m
}

/// Records a record's timestamp as its source's watermark.
pub fn note_source_watermark(ws: &mut Vec<(String, Option<Timestamp>)>, source_id: &String, t: Timestamp)
    ensures
        final(ws)@.len() == old(ws)@.len(),
        forall|i: int| 0 <= i < old(ws)@.len() ==> (#[trigger] final(ws)@[i]).0@ == old(ws)@[i].0@
            && final(ws)@[i].1 == if old(ws)@[i].0@ == source_id@ { Some(t) } else { old(ws)@[i].1 },
{
    let n = ws.len();
    let mut i: usize = 0;
    while i < n
        invariant
            i <= n == ws@.len() == old(ws)@.len(),
            forall|k: int| 0 <= k < n ==> (#[trigger] ws@[k]).0@ == old(ws)@[k].0@
                && ws@[k].1 == if k < i && old(ws)@[k].0@ == source_id@ { Some(t) } else { old(ws)@[k].1 },
        decreases n - i,
    {
        let ghost prev = ws@;
        if ws[i].0 == *source_id {
            let (name, _) = ws.remove(i);
            ws.insert(i, (name, Some(t)));
            assert(ws@ =~= prev.update(i as int, (name, Some(t))));
        }
        i += 1;
    }
}

} // verus!

use vstd::prelude::*;
use std::collections::VecDeque;
use crate::collector::batch::LogBatch;
use crate::source::reader::LogRecord;
use crate::time::Timestamp;

verus! {

/// Errors of a collector stream.
#[derive(Debug)]
pub enum CollectorStreamError {
    /// The collector could not be reached or answered badly (its message).
    ClientError(String),
    /// The stream is closed.
    StreamClosed,
}

/// Figures about a collector stream.
pub struct StreamStats {
    pub collector_id: String,
    pub last_sequence: u64,
    pub queued_logs: usize,
    pub watermark: Option<(u64, Timestamp)>,
    pub closed: bool,
}

/// A collector seen as a source: the logs of its batches, in order, with
/// the watermark of the latest batch. The batches themselves are fetched
/// by the caller, who asks `fetch_request` what to fetch.
pub struct CollectorStream {
    collector_id: String,
    last_sequence: u64,
    /// (generation, watermark) of the latest batch.
    watermark: Option<(u64, Timestamp)>,
    batch_queue: VecDeque<LogRecord>,
    fetch_limit: usize,
    closed: bool,
    has_fetched: bool,
}

/// The logs of the batches, in order.
pub open spec fn batches_logs(bs: Seq<LogBatch>) -> Seq<LogRecord>
    decreases bs.len(),
{
    if bs.len() == 0 { Seq::empty() } else { batches_logs(bs.drop_last()) + bs.last().logs@ }
}

impl CollectorStream {
    pub closed spec fn id(&self) -> Seq<char> {
        self.collector_id@
    }

    pub closed spec fn queue(&self) -> Seq<LogRecord> {
        self.batch_queue@
    }

    pub closed spec fn last_seq(&self) -> u64 {
        self.last_sequence
    }

    pub closed spec fn mark(&self) -> Option<(u64, Timestamp)> {
        self.watermark
    }

    pub closed spec fn is_closed(&self) -> bool {
        self.closed
    }

    pub closed spec fn fetched(&self) -> bool {
        self.has_fetched
    }

    pub closed spec fn limit(&self) -> usize {
        self.fetch_limit
    }

    /// A stream of the collector, before any fetch: sequence 0, no
    /// watermark, fetches of up to 10 batches.
    pub fn new(collector_id: String) -> (s: Self)
        ensures
            s.id() == collector_id@,
            s.last_seq() == 0,
            s.mark() is None,
            s.queue() == Seq::<LogRecord>::empty(),
            !s.is_closed(),
            !s.fetched(),
            s.limit() == 10,
    {
        CollectorStream {
            collector_id,
            last_sequence: 0,
            watermark: None,
            batch_queue: VecDeque::new(),
            fetch_limit: 10,
            closed: false,
            has_fetched: false,
        }
    }

    pub fn collector_id(&self) -> (s: &str)
        ensures
            s@ == self.id(),
    {
        self.collector_id.as_str()
    }

    /// What to fetch next: the batches after which sequence number (`None`
    /// on the first fetch: from the beginning) and how many at most; `None`
    /// when the stream is closed.
    pub fn fetch_request(&self) -> (r: Option<(Option<u64>, usize)>)
        ensures
            self.is_closed() ==> r is None,
            !self.is_closed() ==> r == Some((if self.fetched() { Some(self.last_seq()) } else { None::<u64> }, self.limit())),
    {
        if self.closed {
            return None;
        }
        let after = if self.has_fetched { Some(self.last_sequence) } else { None };
        Some((after, self.fetch_limit))
    }

    /// Takes in the fetched batches: their logs join the queue in order,
    /// the watermark becomes that of the last batch and the last sequence
    /// number its sequence number. Returns how many logs were queued.
    pub fn ingest_batches(&mut self, batches: Vec<LogBatch>) -> (n: usize)
        requires
            old(self).queue().len() + batches_logs(batches@).len() <= usize::MAX,
        ensures
            n == batches_logs(batches@).len(),
            final(self).queue() == old(self).queue() + batches_logs(batches@),
            final(self).id() == old(self).id(),
            final(self).is_closed() == old(self).is_closed(),
            final(self).limit() == old(self).limit(),
            batches@.len() == 0 ==> final(self).last_seq() == old(self).last_seq() && final(self).mark() == old(self).mark()
                && final(self).fetched() == old(self).fetched(),
            batches@.len() > 0 ==> {
                &&& final(self).fetched()
                &&& final(self).last_seq() == batches@.last().sequence_num
                &&& final(self).mark() == Some((batches@.last().epoch.generation, batches@.last().epoch.watermark))
            },
    {
        if batches.len() == 0 {
            return 0;
        }
        self.has_fetched = true;
        let ghost q0 = self.batch_queue@;
        let mut count: usize = 0;
        let mut i: usize = 0;
        while i < batches.len()
            invariant
                i <= batches@.len(),
                batches@.len() > 0,
                self.batch_queue@ == q0 + batches_logs(batches@.take(i as int)),
                count == batches_logs(batches@.take(i as int)).len(),
                q0.len() + batches_logs(batches@).len() <= usize::MAX,
                self.has_fetched,
                self.collector_id == old(self).collector_id,
                self.closed == old(self).closed,
                self.fetch_limit == old(self).fetch_limit,
                i > 0 ==> self.last_sequence == batches@[i - 1].sequence_num
                    && self.watermark == Some((batches@[i - 1].epoch.generation, batches@[i - 1].epoch.watermark)),
            decreases batches@.len() - i,
        {
            let b = &batches[i];
            assert(batches@.take(i as int + 1).drop_last() =~= batches@.take(i as int));
            proof {
                lemma_batches_logs_prefix(batches@, i as int + 1);
            }
            self.watermark = Some((b.epoch.generation, b.epoch.watermark));
            let mut k: usize = 0;
            let ghost qb = self.batch_queue@;
            while k < b.logs.len()
                invariant
                    k <= b.logs@.len(),
                    self.batch_queue@ == qb + b.logs@.take(k as int),
                    self.has_fetched,
                    self.collector_id == old(self).collector_id,
                    self.closed == old(self).closed,
                    self.fetch_limit == old(self).fetch_limit,
                    self.watermark == Some((b.epoch.generation, b.epoch.watermark)),
                decreases b.logs@.len() - k,
            {
                self.batch_queue.push_back(b.logs[k].clone());
                assert(self.batch_queue@ =~= qb + b.logs@.take(k as int + 1));
                k += 1;
            }
            assert(b.logs@.take(b.logs@.len() as int) =~= b.logs@);
            assert(self.batch_queue@ =~= q0 + batches_logs(batches@.take(i as int + 1)));
            count = count + b.logs.len();
            self.last_sequence = b.sequence_num;
            i += 1;
        }
        assert(batches@.take(batches@.len() as int) =~= batches@);
        count
    }

    /// The next queued log, if any.
    pub fn pop_queued_record(&mut self) -> (r: Option<LogRecord>)
        ensures
            old(self).queue().len() == 0 ==> r is None && final(self).queue() == old(self).queue(),
            old(self).queue().len() > 0 ==> r == Some(old(self).queue()[0]) && final(self).queue() == old(self).queue().drop_first(),
            final(self).id() == old(self).id(),
            final(self).last_seq() == old(self).last_seq(),
            final(self).mark() == old(self).mark(),
            final(self).is_closed() == old(self).is_closed(),
            final(self).fetched() == old(self).fetched(),
            final(self).limit() == old(self).limit(),
    {
        self.batch_queue.pop_front()
    }

    /// The watermark of the latest batch.
    pub fn watermark(&self) -> (w: Option<Timestamp>)
        ensures
            w == match self.mark() {
                Some(m) => Some(m.1),
                None => None::<Timestamp>,
            },
    {
        match self.watermark {
            Some(m) => Some(m.1),
            None => None,
        }
    }

    /// The watermark of the latest batch with its generation; compared
    /// generation first.
    pub fn watermark_with_generation(&self) -> (w: Option<(u64, Timestamp)>)
        ensures
            w == self.mark(),
    {
        self.watermark
    }

    pub fn last_sequence(&self) -> (n: u64)
        ensures
            n == self.last_seq(),
    {
        self.last_sequence
    }

    /// Closes the stream and drops the queued logs.
    pub fn close(&mut self)
        ensures
            final(self).is_closed(),
            final(self).queue() == Seq::<LogRecord>::empty(),
            final(self).id() == old(self).id(),
            final(self).last_seq() == old(self).last_seq(),
            final(self).mark() == old(self).mark(),
    {
        self.closed = true;
        self.batch_queue.clear();
    }

    /// Resumes after the given sequence number, dropping queued logs and
    /// the watermark.
    pub fn reset_to_sequence(&mut self, sequence: u64)
        ensures
            final(self).last_seq() == sequence,
            final(self).queue() == Seq::<LogRecord>::empty(),
            final(self).mark() is None,
            final(self).fetched(),
            final(self).id() == old(self).id(),
            final(self).is_closed() == old(self).is_closed(),
            final(self).limit() == old(self).limit(),
    {
        self.last_sequence = sequence;
        self.batch_queue.clear();
        self.watermark = None;
        self.has_fetched = true;
    }

    /// Figures about the stream.
    pub fn stats(&self) -> (st: StreamStats)
        ensures
            st.collector_id@ == self.id(),
            st.last_sequence == self.last_seq(),
            st.queued_logs == self.queue().len(),
            st.watermark == self.mark(),
            st.closed == self.is_closed(),
    {
        StreamStats {
            collector_id: self.collector_id.clone(),
            last_sequence: self.last_sequence,
            queued_logs: self.batch_queue.len(),
            watermark: self.watermark,
            closed: self.closed,
        }
    }
}

proof fn lemma_batches_logs_prefix(bs: Seq<LogBatch>, i: int)
    requires
        0 <= i <= bs.len(),
    ensures
        batches_logs(bs.take(i)).len() <= batches_logs(bs).len(),
    decreases bs.len() - i,
{
    if i < bs.len() {
        lemma_batches_logs_prefix(bs, i + 1);
        assert(bs.take(i + 1).drop_last() =~= bs.take(i));
    } else {
        assert(bs.take(i) =~= bs);
    }
}

} // verus!

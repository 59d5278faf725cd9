use vstd::prelude::*;
use std::collections::VecDeque;
use crate::source::reader::LogRecord;
use crate::storage::checkpoint::SequencerCheckpoint;
use crate::time::{Timestamp, Nanos, valid_timestamp, valid_delta};

verus! {

/// What the sequencer knows of one source.
pub struct SourceState {
    pub source_id: String,
    /// No record earlier than this will arrive from the source.
    pub watermark: Option<Timestamp>,
    /// False once the source has reported that it is done.
    pub active: bool,
}

/// Merges several source streams into global timestamp order.
///
/// Records are buffered until every active source has a watermark; then the
/// records earlier than the smallest watermark (less the safety margin) are
/// released, earliest first.
pub struct Sequencer {
    sources: Vec<SourceState>,
    /// Buffered records, in non-decreasing timestamp order.
    heap: VecDeque<LogRecord>,
    safety_margin: Nanos,
}

/// The timestamps of a sequence of records never decrease.
pub open spec fn sorted_by_time(s: Seq<LogRecord>) -> bool {
    forall|i: int, j: int| 0 <= i <= j < s.len() ==> s[i].timestamp <= s[j].timestamp
}

/// The number of leading records of `s` whose timestamp is at most `t`.
pub open spec fn count_leading_le(s: Seq<LogRecord>, t: Timestamp) -> nat
    decreases s.len(),
{
    if s.len() == 0 || s[0].timestamp > t {
        0
    } else {
        1 + count_leading_le(s.drop_first(), t)
    }
}

/// The number of leading records of `s` whose timestamp is below `t`.
pub open spec fn count_leading_lt(s: Seq<LogRecord>, t: Timestamp) -> nat
    decreases s.len(),
{
    if s.len() == 0 || s[0].timestamp >= t {
        0
    } else {
        1 + count_leading_lt(s.drop_first(), t)
    }
}

/// A source as the contracts see it: its id, its watermark and whether it is active.
pub open spec fn source_view(s: SourceState) -> (Seq<char>, Option<Timestamp>, bool) {
    (s.source_id@, s.watermark, s.active)
}

/// The sources as the contracts see them.
pub open spec fn sources_view(v: Seq<SourceState>) -> Seq<(Seq<char>, Option<Timestamp>, bool)> {
    v.map_values(|s: SourceState| source_view(s))
}

/// Whether some source has the given id.
pub open spec fn has_source(s: Seq<(Seq<char>, Option<Timestamp>, bool)>, id: Seq<char>) -> bool {
    exists|i: int| 0 <= i < s.len() && #[trigger] s[i].0 == id
}

/// Whether some string has the given characters.
pub open spec fn strings_contain(v: Seq<String>, id: Seq<char>) -> bool {
    exists|j: int| 0 <= j < v.len() && #[trigger] v[j]@ == id
}

/// Whether some source is still active.
pub open spec fn some_active(s: Seq<(Seq<char>, Option<Timestamp>, bool)>) -> bool {
    exists|i: int| 0 <= i < s.len() && #[trigger] s[i].2
}

/// Whether every active source has a watermark.
pub open spec fn all_active_marked(s: Seq<(Seq<char>, Option<Timestamp>, bool)>) -> bool {
    forall|i: int| 0 <= i < s.len() && #[trigger] s[i].2 ==> s[i].1 is Some
}

/// The smallest watermark among the active sources that have one.
pub open spec fn min_active_watermark(s: Seq<(Seq<char>, Option<Timestamp>, bool)>) -> Option<Timestamp>
    decreases s.len(),
{
    if s.len() == 0 {
        None
    } else {
        let rest = min_active_watermark(s.drop_last());
        let last = s.last();
        if last.2 && last.1 is Some {
            let w = last.1->0;
            match rest {
                None => Some(w),
                Some(r) => Some(if r <= w { r } else { w }),
            }
        } else {
            rest
        }
    }
}

/// The smallest watermark over the active sources, when there is an active
/// source and every active source has a watermark.
pub open spec fn spec_min_watermark(s: Seq<(Seq<char>, Option<Timestamp>, bool)>) -> Option<Timestamp> {
    if some_active(s) && all_active_marked(s) {
        min_active_watermark(s)
    } else {
        None
    }
}

impl Sequencer {
    /// The sources, in the order the sequencer keeps them.
    pub closed spec fn sources(&self) -> Seq<(Seq<char>, Option<Timestamp>, bool)> {
        sources_view(self.sources@)
    }

    /// The buffered records, earliest first.
    pub closed spec fn buffered(&self) -> Seq<LogRecord> {
        self.heap@
    }

    /// The safety margin subtracted from the smallest watermark.
    pub closed spec fn margin(&self) -> Nanos {
        self.safety_margin
    }

    /// Well-formedness: the buffer is in timestamp order, every watermark is
    /// a valid instant and the margin converts to a time delta.
    pub closed spec fn wf(&self) -> bool {
        &&& sorted_by_time(self.heap@)
        &&& valid_delta(self.safety_margin)
        &&& forall|i: int| 0 <= i < self.sources@.len() ==>
            (#[trigger] self.sources@[i].watermark matches Some(w) ==> valid_timestamp(w))
    }

    /// A well-formed sequencer holds its records in timestamp order.
    pub proof fn lemma_buffer_sorted(&self)
        requires
            self.wf(),
        ensures
            sorted_by_time(self.buffered()),
    {
    }

    /// The instant below which buffered records may be released, if any.
    pub open spec fn threshold(&self) -> Option<Timestamp> {
        match spec_min_watermark(self.sources()) {
            Some(m) => Some((m - self.margin()) as Timestamp),
            None => None,
        }
    }

    /// Creates a sequencer for the given sources, none of which has a watermark yet.
    pub fn new(source_ids: Vec<String>, safety_margin: Nanos) -> (s: Self)
        requires
            valid_delta(safety_margin),
        ensures
            s.wf(),
            s.margin() == safety_margin,
            s.buffered().len() == 0,
            forall|i: int, j: int| 0 <= i < j < s.sources().len() ==>
                s.sources()[i].0 != s.sources()[j].0,
            forall|i: int| 0 <= i < s.sources().len() ==>
                #[trigger] s.sources()[i].1 is None && s.sources()[i].2,
            forall|id: Seq<char>| #[trigger] has_source(s.sources(), id) <==> strings_contain(source_ids@, id),
    {
        let mut sources: Vec<SourceState> = Vec::new();
        let n = source_ids.len();
        let mut k: usize = 0;
        while k < n
            invariant
                n == source_ids.len(),
                k <= n,
                forall|i: int, j: int| 0 <= i < j < sources@.len() ==>
                    sources@[i].source_id@ != sources@[j].source_id@,
                forall|i: int| 0 <= i < sources@.len() ==>
                    #[trigger] sources@[i].watermark is None && sources@[i].active,
                forall|id: Seq<char>| #[trigger] has_source(sources_view(sources@), id)
                    <==> strings_contain(source_ids@.take(k as int), id),
            decreases n - k,
        {
            let id = &source_ids[k];
            let mut present = false;
            let mut m: usize = 0;
            while m < sources.len()
                invariant
                    m <= sources.len(),
                    present <==> exists|i: int| 0 <= i < m && sources@[i].source_id@ == id@,
                decreases sources.len() - m,
            {
                if sources[m].source_id == *id {
                    present = true;
                }
                m += 1;
            }
            let ghost old_sources = sources@;
            if !present {
                sources.push(SourceState { source_id: id.clone(), watermark: None, active: true });
            }
            proof {
                let ov = sources_view(old_sources);
                let nv = sources_view(sources@);
                let ot = source_ids@.take(k as int);
                let nt = source_ids@.take(k as int + 1);
                assert(nt =~= ot.push(source_ids@[k as int]));
                assert forall|idv: Seq<char>| #[trigger] has_source(nv, idv) <==> strings_contain(nt, idv) by {
                    if strings_contain(nt, idv) {
                        let j = choose|j: int| 0 <= j < nt.len() && #[trigger] nt[j]@ == idv;
                        if j < k {
                            assert(ot[j] == nt[j]);
                            assert(strings_contain(ot, idv));
                            assert(has_source(ov, idv));
                            let i = choose|i: int| 0 <= i < ov.len() && #[trigger] ov[i].0 == idv;
                            assert(nv[i] == ov[i]);
                        } else if present {
                            let i = choose|i: int| 0 <= i < m && sources@[i].source_id@ == id@;
                            assert(nv[i].0 == idv);
                        } else {
                            assert(nv[old_sources.len() as int].0 == idv);
                        }
                    }
                    if has_source(nv, idv) {
                        let i = choose|i: int| 0 <= i < nv.len() && #[trigger] nv[i].0 == idv;
                        if i < old_sources.len() {
                            assert(ov[i] == nv[i]);
                            assert(has_source(ov, idv));
                            let j = choose|j: int| 0 <= j < ot.len() && #[trigger] ot[j]@ == idv;
                            assert(nt[j] == ot[j]);
                        } else {
                            assert(nt[k as int]@ == idv);
                        }
                    }
                }
            }
            k += 1;
        }
        let s = Sequencer { sources, heap: VecDeque::new(), safety_margin };
        assert(source_ids@.take(n as int) =~= source_ids@);
        assert(s.sources().len() == s.sources@.len());
        s
    }

    /// Adds a record to the buffer, after every buffered record whose
    /// timestamp is not later than its own.
    pub fn push(&mut self, record: LogRecord)
        requires
            old(self).wf(),
        ensures
            final(self).wf(),
            final(self).sources() == old(self).sources(),
            final(self).margin() == old(self).margin(),
            final(self).buffered() == old(self).buffered().insert(
                count_leading_le(old(self).buffered(), record.timestamp) as int,
                record,
            ),
    {
        let ghost s = self.heap@;
        let t = record.timestamp;
        let mut i: usize = 0;
        assert(s.skip(0) =~= s);
        while i < self.heap.len() && self.heap[i].timestamp <= t
            invariant
                self.heap@ == s,
                i <= s.len(),
                sorted_by_time(s),
                count_leading_le(s, t) == i + count_leading_le(s.skip(i as int), t),
                forall|j: int| 0 <= j < i ==> s[j].timestamp <= t,
            decreases s.len() - i,
        {
            assert(s.skip(i as int).drop_first() =~= s.skip(i as int + 1));
            i += 1;
        }
        assert(count_leading_le(s.skip(i as int), t) == 0);
        self.heap.insert(i, record);
        let ghost n = self.heap@;
        assert forall|a: int, b: int| 0 <= a <= b < n.len() implies n[a].timestamp <= n[b].timestamp by {
            if a < i && b > i {
                assert(n[b] == s[b - 1]);
            }
            if b > i && a > i {
                assert(n[b] == s[b - 1]);
                assert(n[a] == s[a - 1]);
            }
            if b > i && a == i {
                assert(n[b] == s[b - 1]);
                assert(i < s.len());
                assert(s[i as int].timestamp > t);
            }
        }
    }

    /// Records that no record earlier than `watermark` will arrive from the source.
    pub fn update_watermark(&mut self, source_id: &String, watermark: Timestamp)
        requires
            old(self).wf(),
            valid_timestamp(watermark),
        ensures
            final(self).wf(),
            final(self).buffered() == old(self).buffered(),
            final(self).margin() == old(self).margin(),
            final(self).sources().len() == old(self).sources().len(),
            forall|i: int| 0 <= i < old(self).sources().len() ==> #[trigger] final(self).sources()[i] == if old(
                self,
            ).sources()[i].0 == source_id@ {
                (source_id@, Some(watermark), old(self).sources()[i].2)
            } else {
                old(self).sources()[i]
            },
    {
        let n = self.sources.len();
        let mut i: usize = 0;
        while i < n
            invariant
                n == self.sources.len() == old(self).sources@.len(),
                i <= n,
                sorted_by_time(self.heap@),
                self.heap@ == old(self).heap@,
                self.safety_margin == old(self).safety_margin,
                valid_timestamp(watermark),
                forall|j: int| 0 <= j < n ==> (#[trigger] self.sources@[j].watermark matches Some(w) ==> valid_timestamp(w)),
                forall|j: int| 0 <= j < n ==> #[trigger] source_view(self.sources@[j]) == if j < i && old(self).sources@[j].source_id@ == source_id@ {
                    (source_id@, Some(watermark), old(self).sources@[j].active)
                } else {
                    source_view(old(self).sources@[j])
                },
            decreases n - i,
        {
            let ghost prev = self.sources@;
            assert(source_view(prev[i as int]) == source_view(old(self).sources@[i as int]));
            if self.sources[i].source_id == *source_id {
                self.sources[i].watermark = Some(watermark);
                assert(self.sources@ =~= prev.update(i as int, SourceState {
                    source_id: prev[i as int].source_id, watermark: Some(watermark), active: prev[i as int].active }));
            }
            i += 1;
        }
        assert(self.sources().len() == n);
    }

    /// Records that the source is done: no more records will arrive from it.
    pub fn mark_source_done(&mut self, source_id: &String)
        requires
            old(self).wf(),
        ensures
            final(self).wf(),
            final(self).buffered() == old(self).buffered(),
            final(self).margin() == old(self).margin(),
            final(self).sources().len() == old(self).sources().len(),
            forall|i: int| 0 <= i < old(self).sources().len() ==> #[trigger] final(self).sources()[i] == if old(
                self,
            ).sources()[i].0 == source_id@ {
                (source_id@, old(self).sources()[i].1, false)
            } else {
                old(self).sources()[i]
            },
    {
        let n = self.sources.len();
        let mut i: usize = 0;
        while i < n
            invariant
                n == self.sources.len() == old(self).sources@.len(),
                i <= n,
                sorted_by_time(self.heap@),
                self.heap@ == old(self).heap@,
                self.safety_margin == old(self).safety_margin,
                forall|j: int| 0 <= j < n ==> (#[trigger] self.sources@[j].watermark matches Some(w) ==> valid_timestamp(w)),
                forall|j: int| 0 <= j < n ==> #[trigger] source_view(self.sources@[j]) == if j < i && old(self).sources@[j].source_id@ == source_id@ {
                    (source_id@, old(self).sources@[j].watermark, false)
                } else {
                    source_view(old(self).sources@[j])
                },
            decreases n - i,
        {
            let ghost prev = self.sources@;
            assert(source_view(prev[i as int]) == source_view(old(self).sources@[i as int]));
            if self.sources[i].source_id == *source_id {
                self.sources[i].active = false;
                assert(self.sources@ =~= prev.update(i as int, SourceState {
                    source_id: prev[i as int].source_id, watermark: prev[i as int].watermark, active: false }));
            }
            i += 1;
        }
        assert(self.sources().len() == n);
    }

    /// The smallest watermark over the active sources; `None` when no source
    /// is active or some active source has no watermark yet.
    fn compute_min_watermark(&self) -> (m: Option<Timestamp>)
        requires
            self.wf(),
        ensures
            m == spec_min_watermark(self.sources()),
            m matches Some(w) ==> valid_timestamp(w),
    {
        let ghost sv = self.sources();
        let n = self.sources.len();
        let mut any_active = false;
        let mut all_marked = true;
        let mut min: Option<Timestamp> = None;
        let mut i: usize = 0;
        while i < n
            invariant
                n == self.sources@.len() == sv.len(),
                sv == self.sources(),
                self.wf(),
                i <= n,
                any_active == some_active(sv.take(i as int)),
                all_marked == all_active_marked(sv.take(i as int)),
                min == min_active_watermark(sv.take(i as int)),
                min matches Some(w) ==> valid_timestamp(w),
            decreases n - i,
        {
            let ghost t = sv.take(i as int + 1);
            assert(t.drop_last() =~= sv.take(i as int));
            assert(t.last() == source_view(self.sources@[i as int]));
            let s = &self.sources[i];
            if s.active {
                any_active = true;
                match s.watermark {
                    Some(w) => {
                        min = match min {
                            None => Some(w),
                            Some(r) => Some(if r <= w { r } else { w }),
                        };
                    },
                    None => {
                        all_marked = false;
                    },
                }
            }
            proof {
                if any_active {
                    if s.active {
                        assert(t[i as int].2);
                    } else {
                        let j = choose|j: int| 0 <= j < i && #[trigger] sv.take(i as int)[j].2;
                        assert(t[j] == sv.take(i as int)[j]);
                    }
                } else {
                    assert forall|j: int| 0 <= j < t.len() implies !(#[trigger] t[j].2) by {
                        if j < i {
                            assert(t[j] == sv.take(i as int)[j]);
                        }
                    }
                }
                if all_marked {
                    assert forall|j: int| 0 <= j < t.len() && #[trigger] t[j].2 implies t[j].1 is Some by {
                        if j < i {
                            assert(t[j] == sv.take(i as int)[j]);
                        }
                    }
                } else {
                    if s.active && s.watermark is None {
                        assert(t[i as int].2 && t[i as int].1 is None);
                    } else {
                        let j = choose|j: int| 0 <= j < i && #[trigger] sv.take(i as int)[j].2 && !(sv.take(i as int)[j].1 is Some);
                        assert(t[j] == sv.take(i as int)[j]);
                    }
                }
            }
            i += 1;
        }
        assert(sv.take(n as int) =~= sv);
        if any_active && all_marked {
            min
        } else {
            None
        }
    }

    /// Releases, earliest first, every buffered record whose timestamp is
    /// below the smallest active watermark less the safety margin. Nothing is
    /// released while some active source has no watermark.
    pub fn emit_ready(&mut self) -> (out: Vec<LogRecord>)
        requires
            old(self).wf(),
        ensures
            final(self).wf(),
            final(self).sources() == old(self).sources(),
            final(self).margin() == old(self).margin(),
            old(self).threshold() is None ==> out@.len() == 0,
            out@.len() == match old(self).threshold() {
                Some(t) => count_leading_lt(old(self).buffered(), t),
                None => 0,
            },
            out@ == old(self).buffered().take(out@.len() as int),
            final(self).buffered() == old(self).buffered().skip(out@.len() as int),
            old(self).threshold() matches Some(t) ==> (forall|i: int| 0 <= i < out@.len()
                ==> #[trigger] out@[i].timestamp < t),
            old(self).threshold() matches Some(t) ==> (forall|i: int| 0 <= i < final(self).buffered().len()
                ==> #[trigger] final(self).buffered()[i].timestamp >= t),
            sorted_by_time(out@),
            sorted_by_time(final(self).buffered()),
    {
        proof { self.lemma_buffer_sorted(); }
        let min = self.compute_min_watermark();
        let mut out: Vec<LogRecord> = Vec::new();
        match min {
            None => {
                return out;
            },
            Some(m) => {
                let threshold: Timestamp = m - (self.safety_margin as i128);
                let ghost s = self.heap@;
                while self.heap.len() > 0 && self.heap[0].timestamp < threshold
                    invariant
                        sorted_by_time(s),
                        out@ + self.heap@ == s,
                        count_leading_lt(s, threshold) == out@.len() + count_leading_lt(self.heap@, threshold),
                        forall|i: int| 0 <= i < out@.len() ==> #[trigger] out@[i].timestamp < threshold,
                        self.sources == old(self).sources,
                        self.safety_margin == old(self).safety_margin,
                        self.heap@ == s.skip(out@.len() as int),
                    decreases self.heap@.len(),
                {
                    let ghost h = self.heap@;
                    let r = self.heap.pop_front().unwrap();
                    assert(h.drop_first() =~= self.heap@);
                    out.push(r);
                    assert(out@ + self.heap@ =~= s);
                    assert(s.skip(out@.len() as int) =~= self.heap@);
                }
                proof {
                    if self.heap@.len() > 0 {
                        assert forall|i: int| 0 <= i < self.heap@.len() implies #[trigger] self.heap@[i].timestamp >= threshold by {
                            assert(self.heap@[i] == s[out@.len() + i]);
                            assert(self.heap@[0] == s[out@.len() as int]);
                        }
                    }
                    assert(out@ =~= s.take(out@.len() as int));
                }
                out
            },
        }
    }

    /// Releases every buffered record, earliest first.
    pub fn flush_all(&mut self) -> (out: Vec<LogRecord>)
        requires
            old(self).wf(),
        ensures
            final(self).wf(),
            final(self).sources() == old(self).sources(),
            final(self).margin() == old(self).margin(),
            out@ == old(self).buffered(),
            final(self).buffered().len() == 0,
    {
        let mut out: Vec<LogRecord> = Vec::new();
        let ghost s = self.heap@;
        while self.heap.len() > 0
            invariant
                sorted_by_time(s),
                out@ + self.heap@ == s,
                self.heap@ == s.skip(out@.len() as int),
                self.sources == old(self).sources,
                self.safety_margin == old(self).safety_margin,
            decreases self.heap@.len(),
        {
            let ghost h = self.heap@;
            let r = self.heap.pop_front().unwrap();
            out.push(r);
            assert(out@ + self.heap@ =~= s);
            assert(s.skip(out@.len() as int) =~= self.heap@);
        }
        assert(out@ =~= s);
        out
    }

    /// Whether every source is done.
    pub fn all_sources_done(&self) -> (b: bool)
        ensures
            b <==> forall|i: int| 0 <= i < self.sources().len() ==> !(#[trigger] self.sources()[i].2),
    {
        let n = self.sources.len();
        let mut i: usize = 0;
        while i < n
            invariant
                n == self.sources@.len() == self.sources().len(),
                i <= n,
                forall|j: int| 0 <= j < i ==> !(#[trigger] self.sources()[j].2),
            decreases n - i,
        {
            if self.sources[i].active {
                assert(self.sources()[i as int].2);
                return false;
            }
            i += 1;
        }
        true
    }

    /// The number of buffered records.
    pub fn buffered_count(&self) -> (n: usize)
        ensures
            n == self.buffered().len(),
    {
        self.heap.len()
    }

    /// The watermark of every source that has one.
    pub fn create_checkpoint(&self) -> (c: SequencerCheckpoint)
        ensures
            checkpoint_view(c.watermarks@) == marked_watermarks(self.sources()),
    {
        let ghost sv = self.sources();
        let n = self.sources.len();
        let mut w: Vec<(String, Timestamp)> = Vec::new();
        let mut i: usize = 0;
        while i < n
            invariant
                n == self.sources@.len() == sv.len(),
                sv == self.sources(),
                i <= n,
                checkpoint_view(w@) == marked_watermarks(sv.take(i as int)),
            decreases n - i,
        {
            let ghost t = sv.take(i as int + 1);
            assert(t.drop_last() =~= sv.take(i as int));
            assert(t.last() == source_view(self.sources@[i as int]));
            match self.sources[i].watermark {
                Some(wm) => {
                    w.push((self.sources[i].source_id.clone(), wm));
                },
                None => {},
            }
            assert(checkpoint_view(w@) =~= marked_watermarks(t));
            i += 1;
        }
        assert(sv.take(n as int) =~= sv);
        SequencerCheckpoint { watermarks: w }
    }

    /// Sets the watermark of each source named in the checkpoint, in order.
    pub fn restore_from_checkpoint(&mut self, checkpoint: &SequencerCheckpoint)
        requires
            old(self).wf(),
            forall|i: int| 0 <= i < checkpoint.watermarks@.len() ==>
                valid_timestamp(#[trigger] checkpoint.watermarks@[i].1),
        ensures
            final(self).wf(),
            final(self).buffered() == old(self).buffered(),
            final(self).margin() == old(self).margin(),
            final(self).sources().len() == old(self).sources().len(),
            forall|i: int| 0 <= i < old(self).sources().len() ==> {
                let id = old(self).sources()[i].0;
                #[trigger] final(self).sources()[i] == match last_watermark_for(checkpoint.watermarks@, id) {
                    Some(w) => (id, Some(w), old(self).sources()[i].2),
                    None => old(self).sources()[i],
                }
            },
    {
        let n = checkpoint.watermarks.len();
        let mut k: usize = 0;
        while k < n
            invariant
                n == checkpoint.watermarks@.len(),
                k <= n,
                forall|i: int| 0 <= i < n ==> valid_timestamp(#[trigger] checkpoint.watermarks@[i].1),
                self.wf(),
                self.buffered() == old(self).buffered(),
                self.margin() == old(self).margin(),
                self.sources().len() == old(self).sources().len(),
                forall|i: int| 0 <= i < old(self).sources().len() ==> {
                    let id = old(self).sources()[i].0;
                    #[trigger] self.sources()[i] == match last_watermark_for(checkpoint.watermarks@.take(k as int), id) {
                        Some(w) => (id, Some(w), old(self).sources()[i].2),
                        None => old(self).sources()[i],
                    }
                },
            decreases n - k,
        {
            let ghost before = self.sources();
            self.update_watermark(&checkpoint.watermarks[k].0, checkpoint.watermarks[k].1);
            assert(checkpoint.watermarks@.take(k as int + 1).drop_last() =~= checkpoint.watermarks@.take(k as int));
            k += 1;
        }
        assert(checkpoint.watermarks@.take(n as int) =~= checkpoint.watermarks@);
    }
}

/// A checkpoint's entries as the contracts see them.
pub open spec fn checkpoint_view(w: Seq<(String, Timestamp)>) -> Seq<(Seq<char>, Timestamp)> {
    w.map_values(|p: (String, Timestamp)| (p.0@, p.1))
}

/// The (id, watermark) pairs of the sources that have a watermark, in order.
pub open spec fn marked_watermarks(s: Seq<(Seq<char>, Option<Timestamp>, bool)>) -> Seq<(Seq<char>, Timestamp)>
    decreases s.len(),
{
    if s.len() == 0 {
        Seq::empty()
    } else {
        let rest = marked_watermarks(s.drop_last());
        match s.last().1 {
            Some(w) => rest.push((s.last().0, w)),
            None => rest,
        }
    }
}

/// The watermark that the last entry for `id` in a checkpoint gives, if any.
pub open spec fn last_watermark_for(w: Seq<(String, Timestamp)>, id: Seq<char>) -> Option<Timestamp>
    decreases w.len(),
{
    if w.len() == 0 {
        None
    } else if w.last().0@ == id {
        Some(w.last().1)
    } else {
        last_watermark_for(w.drop_last(), id)
    }
}

/// Law: whatever `emit_ready` releases is in timestamp order and no later
/// than anything it leaves buffered.
pub proof fn law_emit_order(before: Seq<LogRecord>, out: Seq<LogRecord>, after: Seq<LogRecord>)
    requires
        sorted_by_time(before),
        out.len() <= before.len(),
        out == before.take(out.len() as int),
        after == before.skip(out.len() as int),
    ensures
        sorted_by_time(out),
        sorted_by_time(after),
        forall|i: int, j: int| 0 <= i < out.len() && 0 <= j < after.len() ==>
            #[trigger] out[i].timestamp <= #[trigger] after[j].timestamp,
        out + after == before,
{
    assert forall|i: int, j: int| 0 <= i < out.len() && 0 <= j < after.len() implies
        #[trigger] out[i].timestamp <= #[trigger] after[j].timestamp by {
        assert(after[j] == before[out.len() + j]);
    }
    assert forall|i: int, j: int| 0 <= i <= j < after.len() implies after[i].timestamp <= after[j].timestamp by {
        assert(after[j] == before[out.len() + j]);
        assert(after[i] == before[out.len() + i]);
    }
    assert(out + after =~= before);
}

} // verus!

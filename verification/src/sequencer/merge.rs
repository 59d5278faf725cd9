use vstd::prelude::*;
use crate::config::types::SequencerConfig;
use crate::sequencer::local::{Sequencer, count_leading_le, count_leading_lt, spec_min_watermark, strings_contain, has_source};
use crate::source::reader::LogRecord;
use crate::text::string_views;
use crate::time::{Nanos, Timestamp, valid_delta, valid_timestamp};

verus! {

/// Errors of merging sources.
#[derive(Debug)]
pub enum SequencerError {
    /// A source failed, or there was no source; the message.
    SourceReader(String),
    /// The consumer of the merged records went away.
    ChannelSend,
    /// A source task could not be joined; the message.
    Join(String),
}

/// Settings of a merge run, in nanoseconds.
pub struct SequencerRunConfig {
    /// Subtracted from the smallest watermark before records are released.
    pub safety_margin: Nanos,
    /// How often ready records are released while no event arrives.
    pub emit_interval: Nanos,
}

impl SequencerRunConfig {
    /// The settings taken from the configuration: its watermark safety
    /// margin (one second when not set), and a release every 100 ms.
    pub fn from_config(config: &SequencerConfig) -> (c: SequencerRunConfig)
        ensures
            c.safety_margin == match config.watermark_safety_margin {
                Some(m) => m,
                None => 1_000_000_000u128,
            },
            c.emit_interval == 100_000_000,
    {
        SequencerRunConfig {
            safety_margin: match config.watermark_safety_margin {
                Some(m) => m,
                None => 1_000_000_000,
            },
            emit_interval: 100_000_000,
        }
    }
}

impl Default for SequencerRunConfig {
    /// A one-second safety margin and a release every 100 ms.
    fn default() -> (c: SequencerRunConfig)
        ensures
            c.safety_margin == 1_000_000_000,
            c.emit_interval == 100_000_000,
    {
        SequencerRunConfig { safety_margin: 1_000_000_000, emit_interval: 100_000_000 }
    }
}

/// What a source reports to the merge.
pub enum SourceEvent {
    /// A record, with the source's watermark after it.
    Record { record: LogRecord, watermark: Timestamp },
    /// The source has no more records.
    Done,
    /// The source failed; the message.
    Error(String),
}

/// What the merge does after an event.
pub enum SequencerStep {
    /// Send these records on, in order, and go on.
    Emit(Vec<LogRecord>),
    /// Send these records on, in order, and stop: every source is done.
    Finish(Vec<LogRecord>),
    /// Stop with this error.
    Fail(SequencerError),
}

/// The sources with `id`'s watermark set to `w`.
pub open spec fn with_watermark(
    s: Seq<(Seq<char>, Option<Timestamp>, bool)>,
    id: Seq<char>,
    w: Timestamp,
) -> Seq<(Seq<char>, Option<Timestamp>, bool)> {
    Seq::new(s.len(), |i: int| if s[i].0 == id { (id, Some(w), s[i].2) } else { s[i] })
}

/// The sources with `id` marked done.
pub open spec fn with_done(s: Seq<(Seq<char>, Option<Timestamp>, bool)>, id: Seq<char>) -> Seq<(Seq<char>, Option<Timestamp>, bool)> {
    Seq::new(s.len(), |i: int| if s[i].0 == id { (id, s[i].1, false) } else { s[i] })
}

/// How many of the buffered records the sources let go.
pub open spec fn ready_count(buf: Seq<LogRecord>, s: Seq<(Seq<char>, Option<Timestamp>, bool)>, margin: Nanos) -> nat {
    match spec_min_watermark(s) {
        Some(m) => count_leading_lt(buf, (m - margin) as Timestamp),
        None => 0,
    }
}

/// The merge of several sources into timestamp order: the sequencer, the
/// source ids by position, and how many sources have not reported done.
pub struct MergeState {
    sequencer: Sequencer,
    source_ids: Vec<String>,
    active_sources: usize,
}

impl MergeState {
    pub closed spec fn sequencer(&self) -> Sequencer {
        self.sequencer
    }

    pub closed spec fn ids(&self) -> Seq<Seq<char>> {
        string_views(self.source_ids@)
    }

    /// How many sources have not reported that they are done.
    pub closed spec fn active(&self) -> nat {
        self.active_sources as nat
    }

    pub open spec fn wf(&self) -> bool {
        self.sequencer().wf()
    }

    /// Starts merging the given sources; fails when there is none.
    pub fn start(source_ids: Vec<String>, config: &SequencerRunConfig) -> (r: Result<MergeState, SequencerError>)
        requires
            valid_delta(config.safety_margin),
        ensures
            r is Err <==> source_ids@.len() == 0,
            r matches Err(e) ==> e matches SequencerError::SourceReader(m) && m@ == "no sources provided"@,
            r matches Ok(st) ==> {
                &&& st.wf()
                &&& st.ids() == string_views(source_ids@)
                &&& st.active() == source_ids@.len()
                &&& st.sequencer().margin() == config.safety_margin
                &&& st.sequencer().buffered().len() == 0
                &&& forall|id: Seq<char>| #[trigger] has_source(st.sequencer().sources(), id) <==> strings_contain(source_ids@, id)
                &&& forall|i: int| 0 <= i < st.sequencer().sources().len() ==> #[trigger] st.sequencer().sources()[i].1 is None && st.sequencer().sources()[i].2
            },
    {
        if source_ids.len() == 0 {
            return Err(SequencerError::SourceReader("no sources provided".to_string()));
        }
        let mut ids: Vec<String> = Vec::new();
        let mut i: usize = 0;
        while i < source_ids.len()
            invariant
                i <= source_ids@.len(),
                string_views(ids@) == string_views(source_ids@).take(i as int),
            decreases source_ids@.len() - i,
        {
            let ghost prev = ids@;
            ids.push(source_ids[i].clone());
            assert(string_views(ids@) =~= string_views(prev).push(source_ids@[i as int]@));
            assert(string_views(source_ids@).take(i as int + 1) =~= string_views(source_ids@).take(i as int).push(source_ids@[i as int]@));
            i += 1;
        }
        assert(string_views(source_ids@).take(source_ids@.len() as int) =~= string_views(source_ids@));
        let n = source_ids.len();
        let sequencer = Sequencer::new(source_ids, config.safety_margin);
        Ok(MergeState { sequencer, source_ids: ids, active_sources: n })
    }

    /// Decides what follows an event from the source at `source_idx`: a
    /// record is buffered and the source's watermark moved to the one sent
    /// with it; a source that is done is marked so, and when it was the last
    /// active one everything buffered is sent and the merge stops; a failed
    /// source stops the merge with its message. Otherwise the records the
    /// watermarks now let go are sent, earliest first.
    pub fn on_event(&mut self, source_idx: usize, event: SourceEvent) -> (step: SequencerStep)
        requires
            old(self).wf(),
            source_idx < old(self).ids().len(),
            event matches SourceEvent::Record { watermark, .. } ==> valid_timestamp(watermark),
            event is Done ==> old(self).active() > 0,
        ensures
            final(self).wf(),
            final(self).ids() == old(self).ids(),
            final(self).sequencer().margin() == old(self).sequencer().margin(),
            ({
                let id = old(self).ids()[source_idx as int];
                let buf = old(self).sequencer().buffered();
                let src = old(self).sequencer().sources();
                let margin = old(self).sequencer().margin();
                match event {
                    SourceEvent::Record { record, watermark } => {
                        let b1 = buf.insert(count_leading_le(buf, record.timestamp) as int, record);
                        let s1 = with_watermark(src, id, watermark);
                        let n = ready_count(b1, s1, margin);
                        &&& step matches SequencerStep::Emit(out) && out@ == b1.take(n as int)
                        &&& final(self).sequencer().buffered() == b1.skip(n as int)
                        &&& final(self).sequencer().sources() == s1
                        &&& final(self).active() == old(self).active()
                    },
                    SourceEvent::Done => {
                        let s1 = with_done(src, id);
                        &&& final(self).sequencer().sources() == s1
                        &&& final(self).active() == old(self).active() - 1
                        &&& if old(self).active() == 1 {
                            &&& step matches SequencerStep::Finish(out) && out@ == buf
                            &&& final(self).sequencer().buffered().len() == 0
                        } else {
                            let n = ready_count(buf, s1, margin);
                            &&& step matches SequencerStep::Emit(out) && out@ == buf.take(n as int)
                            &&& final(self).sequencer().buffered() == buf.skip(n as int)
                        }
                    },
                    SourceEvent::Error(e) => {
                        &&& step matches SequencerStep::Fail(SequencerError::SourceReader(m)) && m@ == e@
                        &&& final(self).sequencer() == old(self).sequencer()
                        &&& final(self).active() == old(self).active()
                    },
                }
            }),
    {
        let ghost src = self.sequencer.sources();
        let ghost buf = self.sequencer.buffered();
        let id = self.source_ids[source_idx].clone();
        assert(id@ == self.ids()[source_idx as int]);
        match event {
            SourceEvent::Record { record, watermark } => {
                self.sequencer.push(record);
                self.sequencer.update_watermark(&id, watermark);
                assert(self.sequencer.sources() =~= with_watermark(src, id@, watermark));
                let out = self.sequencer.emit_ready();
                SequencerStep::Emit(out)
            },
            SourceEvent::Done => {
                self.sequencer.mark_source_done(&id);
                assert(self.sequencer.sources() =~= with_done(src, id@));
                self.active_sources = self.active_sources - 1;
                if self.active_sources == 0 {
                    let out = self.sequencer.flush_all();
                    SequencerStep::Finish(out)
                } else {
                    let out = self.sequencer.emit_ready();
                    SequencerStep::Emit(out)
                }
            },
            SourceEvent::Error(e) => SequencerStep::Fail(SequencerError::SourceReader(e)),
        }
    }

    /// The periodic release: the records the watermarks let go, earliest first.
    pub fn on_tick(&mut self) -> (out: Vec<LogRecord>)
        requires
            old(self).wf(),
        ensures
            final(self).wf(),
            final(self).ids() == old(self).ids(),
            final(self).active() == old(self).active(),
            final(self).sequencer().sources() == old(self).sequencer().sources(),
            final(self).sequencer().margin() == old(self).sequencer().margin(),
            out@ == old(self).sequencer().buffered().take(
                ready_count(old(self).sequencer().buffered(), old(self).sequencer().sources(), old(self).sequencer().margin()) as int,
            ),
            final(self).sequencer().buffered() == old(self).sequencer().buffered().skip(
                ready_count(old(self).sequencer().buffered(), old(self).sequencer().sources(), old(self).sequencer().margin()) as int,
            ),
    {
        self.sequencer.emit_ready()
    }
}

} // verus!

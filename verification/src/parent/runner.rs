use vstd::prelude::*;
use crate::storage::checkpoint::CollectorSequencerCheckpoint;
use crate::config::types::Config;
use crate::parent::collector_client::CollectorClientError;
use crate::pipeline::runner::PipelineError;
use crate::storage::checkpoint::CheckpointError;
use crate::time::Timestamp;

verus! {

/// Errors of the parent mode.
pub enum ParentError {
    Config(String),
    CollectorClient(CollectorClientError),
    CollectorStream(String),
    Sequencer(String),
    Pipeline(PipelineError),
    Join(String),
    ChannelSend,
    Checkpoint(CheckpointError),
}

/// The parent mode, set up from a configuration and its section of remote
/// collectors (of type `S`).
pub struct ParentRunner<S> {
    pub config: Config,
    pub remote_collectors_config: S,
    pub config_version: u64,
}

impl<S> ParentRunner<S> {
    /// Sets up the parent mode; the configuration must have a section of
    /// remote collectors.
    pub fn new(config: Config, remote_collectors: Option<S>, config_version: u64) -> (r: Result<Self, ParentError>)
        ensures
            match remote_collectors {
                Some(c) => r matches Ok(x) && x.remote_collectors_config == c && x.config_version == config_version && x.config == config,
                None => r matches Err(ParentError::Config(m)) && m@ == "remote_collectors config section missing"@,
            },
    {
        match remote_collectors {
            Some(c) => Ok(ParentRunner { config, remote_collectors_config: c, config_version }),
            None => Err(ParentError::Config(String::from_str("remote_collectors config section missing"))),
        }
    }
}

/// The first entry with the key, if any.
pub open spec fn entry_index<V>(v: Seq<(String, V)>, id: Seq<char>) -> Option<int>
    decreases v.len(),
{
    if v.len() == 0 {
        None
    } else {
        match entry_index(v.drop_last(), id) {
            Some(i) => Some(i),
            None => if v.last().0@ == id { Some(v.len() - 1) } else { None },
        }
    }
}

/// The largest of some sequence numbers (0 for none).
pub open spec fn max_seq(s: Seq<u64>) -> u64
    decreases s.len(),
{
    if s.len() == 0 {
        0
    } else {
        let m = max_seq(s.drop_last());
        if s.last() > m { s.last() } else { m }
    }
}

/// What the parent keeps of its acknowledgments: the batch sequence
/// numbers still to acknowledge, per collector, and what it has saved of
/// each collector's stream.
pub struct AcknowledgmentState {
    pub pending_acks: Vec<(String, Vec<u64>)>,
    pub collector_checkpoints: Vec<(String, CollectorSequencerCheckpoint)>,
}

pub open spec fn pending_view(v: Seq<(String, Vec<u64>)>) -> Seq<(Seq<char>, Seq<u64>)> {
    v.map_values(|e: (String, Vec<u64>)| (e.0@, e.1@))
}

fn find_entry<V>(v: &Vec<(String, V)>, id: &String) -> (r: Option<usize>)
    ensures
        match r {
            Some(i) => entry_index(v@, id@) == Some(i as int) && i < v@.len() && v@[i as int].0@ == id@,
            None => entry_index(v@, id@) is None,
        },
{
    let mut i: usize = 0;
    while i < v.len()
        invariant
            i <= v@.len(),
            entry_index(v@.take(i as int), id@) is None,
        decreases v@.len() - i,
    {
        assert(v@.take(i as int + 1).drop_last() =~= v@.take(i as int));
        if v[i].0 == *id {
            proof {
                lemma_entry_index_prefix(v@, id@, i as int + 1);
            }
            return Some(i);
        }
        i += 1;
    }
    assert(v@.take(v@.len() as int) =~= v@);
    None
}

proof fn lemma_entry_index_prefix<V>(v: Seq<(String, V)>, id: Seq<char>, k: int)
    requires
        0 <= k <= v.len(),
        entry_index(v.take(k), id) is Some,
    ensures
        entry_index(v, id) == entry_index(v.take(k), id),
    decreases v.len() - k,
{
    if k < v.len() {
        assert(v.take(k + 1).drop_last() =~= v.take(k));
        lemma_entry_index_prefix(v, id, k + 1);
    } else {
        assert(v.take(k) =~= v);
    }
}

impl AcknowledgmentState {
    pub fn new() -> (s: Self)
        ensures
            s.pending_acks@.len() == 0,
            s.collector_checkpoints@.len() == 0,
    {
        AcknowledgmentState { pending_acks: Vec::new(), collector_checkpoints: Vec::new() }
    }

    /// Adds sequence numbers to acknowledge to the collector's list (a
    /// new list when it has none yet).
    pub fn add_pending(&mut self, collector_id: &String, seqs: Vec<u64>)
        ensures
            final(self).collector_checkpoints == old(self).collector_checkpoints,
            match entry_index(old(self).pending_acks@, collector_id@) {
                Some(i) => pending_view(final(self).pending_acks@) == pending_view(old(self).pending_acks@).update(
                    i,
                    (collector_id@, old(self).pending_acks@[i].1@ + seqs@),
                ),
                None => pending_view(final(self).pending_acks@) == pending_view(old(self).pending_acks@).push(
                    (collector_id@, seqs@),
                ),
            },
    {
        let ghost before = pending_view(self.pending_acks@);
        match find_entry(&self.pending_acks, collector_id) {
            Some(i) => {
                let ghost whole = self.pending_acks@;
                let (name, mut list) = self.pending_acks.remove(i);
                assert(name@ == collector_id@);
                let ghost old_list = list@;
                let mut seqs = seqs;
                let ghost added = seqs@;
                list.append(&mut seqs);
                assert(list@ =~= old_list + added);
                self.pending_acks.insert(i, (name, list));
                assert(self.pending_acks@ =~= whole.update(i as int, (name, list)));
                assert(pending_view(self.pending_acks@) =~= before.update(i as int, (collector_id@, old_list + added)));
            },
            None => {
                let ghost prev = self.pending_acks@;
                self.pending_acks.push((collector_id.clone(), seqs));
                assert(pending_view(self.pending_acks@) =~= pending_view(prev).push((collector_id@, seqs@)));
            },
        }
    }

    /// Hands out every pending acknowledgment and forgets them.
    pub fn take_pending(&mut self) -> (acks: Vec<(String, Vec<u64>)>)
        ensures
            acks@ == old(self).pending_acks@,
            final(self).pending_acks@.len() == 0,
            final(self).collector_checkpoints == old(self).collector_checkpoints,
    {
        let mut out: Vec<(String, Vec<u64>)> = Vec::new();
        std::mem::swap(&mut out, &mut self.pending_acks);
        out
    }

    /// A fetch from the collector got up to `sequence`: that is the last
    /// sequence of its saved state, with the watermark when one is known.
    pub fn record_fetch(&mut self, collector_id: &String, sequence: u64, watermark: Option<Timestamp>)
        ensures
            final(self).pending_acks == old(self).pending_acks,
            final(self).collector_checkpoints@.len() == old(self).collector_checkpoints@.len(),
            match entry_index(old(self).collector_checkpoints@, collector_id@) {
                Some(i) => forall|k: int| 0 <= k < old(self).collector_checkpoints@.len() ==> {
                    let o = old(self).collector_checkpoints@[k];
                    let f = #[trigger] final(self).collector_checkpoints@[k];
                    if k == i {
                        &&& f.0@ == o.0@
                        &&& f.1.collector_id@ == o.1.collector_id@
                        &&& f.1.last_sequence == sequence
                        &&& f.1.last_acknowledged_sequence == o.1.last_acknowledged_sequence
                        &&& f.1.watermark == match watermark { Some(w) => Some(w), None => o.1.watermark }
                    } else {
                        f == o
                    }
                },
                None => final(self).collector_checkpoints == old(self).collector_checkpoints,
            },
    {
        match find_entry(&self.collector_checkpoints, collector_id) {
            Some(i) => {
                let (name, cp) = self.collector_checkpoints.remove(i);
                let new_cp = CollectorSequencerCheckpoint {
                    collector_id: cp.collector_id,
                    last_sequence: sequence,
                    last_acknowledged_sequence: cp.last_acknowledged_sequence,
                    watermark: match watermark {
                        Some(w) => Some(w),
                        None => cp.watermark,
                    },
                };
                self.collector_checkpoints.insert(i, (name, new_cp));
            },
            None => {},
        }
    }

    /// The collector accepted the acknowledgment of `seqs`: the largest of
    /// them becomes its last acknowledged sequence.
    pub fn record_acknowledged(&mut self, collector_id: &String, seqs: &Vec<u64>)
        ensures
            final(self).pending_acks == old(self).pending_acks,
            final(self).collector_checkpoints@.len() == old(self).collector_checkpoints@.len(),
            match entry_index(old(self).collector_checkpoints@, collector_id@) {
                Some(i) if seqs@.len() > 0 => forall|k: int| 0 <= k < old(self).collector_checkpoints@.len() ==> {
                    let o = old(self).collector_checkpoints@[k];
                    let f = #[trigger] final(self).collector_checkpoints@[k];
                    if k == i {
                        &&& f.0@ == o.0@
                        &&& f.1.collector_id@ == o.1.collector_id@
                        &&& f.1.last_sequence == o.1.last_sequence
                        &&& f.1.last_acknowledged_sequence == max_seq(seqs@)
                        &&& f.1.watermark == o.1.watermark
                    } else {
                        f == o
                    }
                },
                _ => final(self).collector_checkpoints == old(self).collector_checkpoints,
            },
    {
        if seqs.len() == 0 {
            return;
        }
        let mut m: u64 = 0;
        let mut j: usize = 0;
        while j < seqs.len()
            invariant
                j <= seqs@.len(),
                m == max_seq(seqs@.take(j as int)),
            decreases seqs@.len() - j,
        {
            assert(seqs@.take(j as int + 1).drop_last() =~= seqs@.take(j as int));
            if seqs[j] > m {
                m = seqs[j];
            }
            j += 1;
        }
        assert(seqs@.take(seqs@.len() as int) =~= seqs@);
        match find_entry(&self.collector_checkpoints, collector_id) {
            Some(i) => {
                let (name, cp) = self.collector_checkpoints.remove(i);
                let new_cp = CollectorSequencerCheckpoint {
                    collector_id: cp.collector_id,
                    last_sequence: cp.last_sequence,
                    last_acknowledged_sequence: m,
                    watermark: cp.watermark,
                };
                self.collector_checkpoints.insert(i, (name, new_cp));
            },
            None => {},
        }
    }
}

} // verus!

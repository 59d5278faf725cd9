use vstd::prelude::*;
use crate::collector::batch::{EpochInfo, LogBatch};
use crate::source::reader::LogRecord;
use crate::time::{Timestamp, Nanos, valid_timestamp, valid_delta};

verus! {

/// The logs of the epoch being filled.
struct EpochBuilder {
    start: Timestamp,
    end: Timestamp,
    logs: Vec<LogRecord>,
}

/// Groups logs into batches by fixed time windows (epochs).
pub struct EpochBatcher {
    collector_id: String,
    epoch_duration: Nanos,
    current_epoch: Option<EpochBuilder>,
    sequence_counter: u64,
    config_version: u64,
    rewind_generation: u64,
}

/// Whole seconds of an instant, rounded down (chrono's `timestamp`).
pub open spec fn floor_secs(t: int) -> int {
    if t >= 0 { t / 1_000_000_000 } else { -((-t + 999_999_999) / 1_000_000_000) }
}

/// The start of the epoch of an instant: its whole seconds divided by the
/// epoch length in whole seconds, rounded down, times that length. The
/// start is thus an epoch boundary at or before the instant.
pub open spec fn spec_epoch_start(t: int, duration: Nanos) -> int {
    let d = (duration / 1_000_000_000) as int;
    (floor_secs(t) / d) * d * 1_000_000_000
}

/// The epoch being filled, as the contracts see it: start, end and logs.
spec fn epoch_view(e: Option<EpochBuilder>) -> Option<(Timestamp, Timestamp, Seq<LogRecord>)> {
    match e {
        Some(b) => Some((b.start, b.end, b.logs@)),
        None => None,
    }
}

/// The quotient rounded toward zero of the negated count, rounded up,
/// is the quotient rounded down.
proof fn lemma_floor_div(secs: int, d: int)
    requires
        d >= 1,
        secs < 0,
    ensures
        -((-secs + d - 1) / d) == secs / d,
        (secs / d) * d <= secs < (secs / d) * d + d,
{
    let q = secs / d;
    let r = secs % d;
    vstd::arithmetic::div_mod::lemma_fundamental_div_mod(secs, d);
    vstd::arithmetic::div_mod::lemma_mod_bound(secs, d);
    assert(-secs + d - 1 == (-q) * d + (d - 1 - r)) by (nonlinear_arith)
        requires secs == d * q + r;
    vstd::arithmetic::div_mod::lemma_fundamental_div_mod_converse(-secs + d - 1, d, -q, d - 1 - r);
    assert(q * d == d * q) by (nonlinear_arith);
}

proof fn lemma_floor_div_pos(secs: int, d: int)
    requires
        d >= 1,
        secs >= 0,
    ensures
        (secs / d) * d <= secs < (secs / d) * d + d,
        secs / d >= 0,
{
    vstd::arithmetic::div_mod::lemma_fundamental_div_mod(secs, d);
    vstd::arithmetic::div_mod::lemma_mod_pos_bound(secs, d);
    vstd::arithmetic::div_mod::lemma_div_pos_is_pos(secs, d);
    assert((secs / d) * d == d * (secs / d)) by (nonlinear_arith);
}

proof fn lemma_floor_secs(t: int)
    ensures
        floor_secs(t) * 1_000_000_000 <= t < (floor_secs(t) + 1) * 1_000_000_000,
{
    let n = 1_000_000_000int;
    if t >= 0 {
        vstd::arithmetic::div_mod::lemma_fundamental_div_mod(t, n);
        vstd::arithmetic::div_mod::lemma_mod_pos_bound(t, n);
    } else {
        let u = -t + 999_999_999;
        vstd::arithmetic::div_mod::lemma_fundamental_div_mod(u, n);
        vstd::arithmetic::div_mod::lemma_mod_pos_bound(u, n);
    }
}

/// An instant lies in the epoch that starts at its epoch start.
proof fn lemma_epoch_contains(t: int, duration: Nanos)
    requires
        duration >= 1_000_000_000,
    ensures
        spec_epoch_start(t, duration) <= t < spec_epoch_start(t, duration) + duration,
{
    let ds = (duration / 1_000_000_000) as int;
    let s = floor_secs(t);
    lemma_floor_secs(t);
    vstd::arithmetic::div_mod::lemma_fundamental_div_mod(duration as int, 1_000_000_000);
    vstd::arithmetic::div_mod::lemma_mod_pos_bound(duration as int, 1_000_000_000);
    assert(ds >= 1);
    assert(ds * 1_000_000_000 <= duration);
    let q = s / ds;
    if s >= 0 {
        lemma_floor_div_pos(s, ds);
    } else {
        lemma_floor_div(s, ds);
    }
    assert(spec_epoch_start(t, duration) == q * ds * 1_000_000_000);
    assert(q * ds * 1_000_000_000 <= s * 1_000_000_000) by (nonlinear_arith)
        requires q * ds <= s;
    assert(s + 1 <= q * ds + ds);
    assert(t < (q * ds + ds) * 1_000_000_000) by (nonlinear_arith)
        requires t < (s + 1) * 1_000_000_000, s + 1 <= q * ds + ds;
    assert((q * ds + ds) * 1_000_000_000 == q * ds * 1_000_000_000 + ds * 1_000_000_000) by (nonlinear_arith);
}

impl EpochBatcher {
    pub closed spec fn duration(&self) -> Nanos {
        self.epoch_duration
    }

    pub closed spec fn current(&self) -> Option<(Timestamp, Timestamp, Seq<LogRecord>)> {
        epoch_view(self.current_epoch)
    }

    pub closed spec fn counter(&self) -> u64 {
        self.sequence_counter
    }

    pub closed spec fn generation(&self) -> u64 {
        self.rewind_generation
    }

    pub closed spec fn collector(&self) -> Seq<char> {
        self.collector_id@
    }

    pub closed spec fn version(&self) -> u64 {
        self.config_version
    }

    pub closed spec fn wf(&self) -> bool {
        &&& self.epoch_duration >= 1_000_000_000
        &&& valid_delta(self.epoch_duration)
        &&& (self.current_epoch matches Some(e) ==> e.end == e.start + self.epoch_duration
            && -20_000_000_000_000_000_000_000_000_000 <= e.start <= 20_000_000_000_000_000_000_000_000_000
            && forall|i: int| 0 <= i < e.logs@.len() ==> (#[trigger] e.logs@[i]).timestamp < e.end)
    }

    /// A batcher with no epoch, at sequence 0 and generation 0. The epoch
    /// length is at least a second (it is divided by in whole seconds) and
    /// converts to a time delta.
    pub fn new(collector_id: String, epoch_duration: Nanos, config_version: u64) -> (b: Self)
        requires
            epoch_duration >= 1_000_000_000,
            valid_delta(epoch_duration),
        ensures
            b.wf(),
            b.collector() == collector_id@,
            b.duration() == epoch_duration,
            b.current() is None,
            b.counter() == 0,
            b.generation() == 0,
            b.version() == config_version,
    {
        EpochBatcher {
            collector_id,
            epoch_duration,
            current_epoch: None,
            sequence_counter: 0,
            config_version,
            rewind_generation: 0,
        }
    }

    /// The start of the epoch of an instant: the epoch boundary at or
    /// before it (whole seconds rounded down to a multiple of the epoch
    /// length in whole seconds).
    pub fn epoch_start_for_timestamp(&self, timestamp: Timestamp) -> (s: Timestamp)
        requires
            self.wf(),
            valid_timestamp(timestamp),
        ensures
            s == spec_epoch_start(timestamp as int, self.duration()),
            s <= timestamp < s + self.duration(),
            -20_000_000_000_000_000_000_000_000_000 <= s <= 20_000_000_000_000_000_000_000_000_000,
    {
        let d: i128 = (self.epoch_duration / 1_000_000_000) as i128;
        let secs: i128 = if timestamp >= 0 {
            timestamp / 1_000_000_000
        } else {
            -((-timestamp + 999_999_999) / 1_000_000_000)
        };
        proof {
            lemma_floor_secs(timestamp as int);
            lemma_epoch_contains(timestamp as int, self.duration());
            assert(-10_000_000_000_000_000_000 <= secs <= 10_000_000_000_000_000_000);
            assert(1 <= d <= 10_000_000_000_000_000);
        }
        let q: i128 = if secs >= 0 { secs / d } else { -((-secs + d - 1) / d) };
        proof {
            let si = secs as int;
            let di = d as int;
            if si >= 0 {
                lemma_floor_div_pos(si, di);
            } else {
                lemma_floor_div(si, di);
            }
            assert(q == si / di);
            assert(-10_100_000_000_000_000_000 <= q * d <= 10_000_000_000_000_000_000);
        }
        q * d * 1_000_000_000
    }
}


/// The batch holds the epoch's logs, with the given watermark, generation,
/// sequence number, collector and configuration version.
pub open spec fn batch_of(b: LogBatch, start: Timestamp, end: Timestamp, logs: Seq<LogRecord>, watermark: Timestamp,
    generation: u64, seq: u64, collector: Seq<char>, version: u64) -> bool {
    &&& b.epoch == EpochInfo { start, end, watermark, generation }
    &&& b.logs@ == logs
    &&& b.sequence_num == seq
    &&& b.collector_id@ == collector
    &&& b.config_version == version
}

impl EpochBatcher {
    fn create_batch(&mut self, start: Timestamp, end: Timestamp, logs: Vec<LogRecord>, watermark: Timestamp) -> (b: LogBatch)
        requires
            old(self).sequence_counter < u64::MAX,
        ensures
            batch_of(b, start, end, logs@, watermark, old(self).rewind_generation, old(self).sequence_counter,
                old(self).collector_id@, old(self).config_version),
            final(self).sequence_counter == old(self).sequence_counter + 1,
            final(self).current_epoch == old(self).current_epoch,
            final(self).rewind_generation == old(self).rewind_generation,
            final(self).collector_id == old(self).collector_id,
            final(self).config_version == old(self).config_version,
            final(self).epoch_duration == old(self).epoch_duration,
    {
        let b = LogBatch {
            batch_id: crate::ids::new_id(),
            collector_id: self.collector_id.clone(),
            epoch: EpochInfo { start, end, watermark, generation: self.rewind_generation },
            logs,
            config_version: self.config_version,
            sequence_num: self.sequence_counter,
        };
        self.sequence_counter = self.sequence_counter + 1;
        b
    }

    /// Adds a log. The first log opens the epoch of its timestamp; a log
    /// before the epoch's end joins it; a later one completes the epoch
    /// (watermark: its end), which is returned, and opens the epoch of its
    /// own timestamp.
    pub fn push(&mut self, log: LogRecord) -> (r: Option<LogBatch>)
        requires
            old(self).wf(),
            valid_timestamp(log.timestamp),
            old(self).counter() < u64::MAX,
        ensures
            final(self).wf(),
            final(self).duration() == old(self).duration(),
            final(self).generation() == old(self).generation(),
            final(self).collector() == old(self).collector(),
            final(self).version() == old(self).version(),
            ({
                let d = old(self).duration();
                let s0 = spec_epoch_start(log.timestamp as int, d);
                let c = match old(self).current() {
                    Some(c) => c,
                    None => (s0 as Timestamp, (s0 + d) as Timestamp, Seq::<LogRecord>::empty()),
                };
                if log.timestamp < c.1 {
                    &&& r is None
                    &&& final(self).current() == Some((c.0, c.1, c.2.push(log)))
                    &&& final(self).counter() == old(self).counter()
                } else {
                    &&& r matches Some(b) && batch_of(b, c.0, c.1, c.2, c.1, old(self).generation(), old(self).counter(),
                        old(self).collector(), old(self).version())
                    &&& final(self).current() == Some((s0 as Timestamp, (s0 + d) as Timestamp, seq![log]))
                    &&& final(self).counter() == old(self).counter() + 1
                }
            }),
    {
        if self.current_epoch.is_none() {
            let start = self.epoch_start_for_timestamp(log.timestamp);
            let end = start + self.epoch_duration as i128;
            self.current_epoch = Some(EpochBuilder { start, end, logs: Vec::new() });
        }
        let cur = self.current_epoch.take().unwrap();
        if log.timestamp < cur.end {
            let mut logs = cur.logs;
            let ghost l0 = logs@;
            logs.push(log);
            proof {
                assert forall|i: int| 0 <= i < logs@.len() implies (#[trigger] logs@[i]).timestamp < cur.end by {
                    if i < l0.len() {
                        assert(logs@[i] == l0[i]);
                    }
                }
            }
            self.current_epoch = Some(EpochBuilder { start: cur.start, end: cur.end, logs });
            None
        } else {
            let completed = self.create_batch(cur.start, cur.end, cur.logs, cur.end);
            let start = self.epoch_start_for_timestamp(log.timestamp);
            let end = start + self.epoch_duration as i128;
            proof {
                lemma_epoch_contains(log.timestamp as int, self.epoch_duration);
            }
            let mut logs: Vec<LogRecord> = Vec::new();
            logs.push(log);
            self.current_epoch = Some(EpochBuilder { start, end, logs });
            Some(completed)
        }
    }

    /// Completes the epoch being filled, if any, with the given watermark.
    pub fn flush_current(&mut self, watermark: Timestamp) -> (r: Option<LogBatch>)
        requires
            old(self).wf(),
            old(self).current() is Some ==> old(self).counter() < u64::MAX,
        ensures
            final(self).wf(),
            final(self).current() is None,
            final(self).duration() == old(self).duration(),
            final(self).generation() == old(self).generation(),
            final(self).collector() == old(self).collector(),
            final(self).version() == old(self).version(),
            match old(self).current() {
                Some(c) => r matches Some(b) && batch_of(b, c.0, c.1, c.2, watermark, old(self).generation(), old(self).counter(),
                    old(self).collector(), old(self).version()) && final(self).counter() == old(self).counter() + 1,
                None => r is None && final(self).counter() == old(self).counter(),
            },
    {
        match self.current_epoch.take() {
            Some(e) => Some(self.create_batch(e.start, e.end, e.logs, watermark)),
            None => None,
        }
    }

    /// Restarts numbering at `target_sequence` in a new generation,
    /// discarding the epoch being filled.
    pub fn rewind(&mut self, target_sequence: u64)
        requires
            old(self).wf(),
            old(self).generation() < u64::MAX,
        ensures
            final(self).wf(),
            final(self).counter() == target_sequence,
            final(self).generation() == old(self).generation() + 1,
            final(self).current() is None,
            final(self).duration() == old(self).duration(),
            final(self).collector() == old(self).collector(),
            final(self).version() == old(self).version(),
    {
        self.sequence_counter = target_sequence;
        self.current_epoch = None;
        self.rewind_generation = self.rewind_generation + 1;
    }

    /// Restores the numbering saved in a checkpoint (same generation).
    pub fn restore_from_checkpoint(&mut self, sequence_counter: u64, rewind_generation: u64)
        requires
            old(self).wf(),
        ensures
            final(self).wf(),
            final(self).counter() == sequence_counter,
            final(self).generation() == rewind_generation,
            final(self).current() is None,
            final(self).duration() == old(self).duration(),
            final(self).collector() == old(self).collector(),
            final(self).version() == old(self).version(),
    {
        self.sequence_counter = sequence_counter;
        self.rewind_generation = rewind_generation;
        self.current_epoch = None;
    }

    /// The sequence number of the next batch.
    pub fn sequence_counter(&self) -> (n: u64)
        ensures
            n == self.counter(),
    {
        self.sequence_counter
    }

    /// The rewind generation.
    pub fn rewind_generation(&self) -> (n: u64)
        ensures
            n == self.generation(),
    {
        self.rewind_generation
    }
}

/// Law: every log of a batch that `push` completes is before the batch's end.
pub proof fn law_batch_logs_before_end(b: &EpochBatcher)
    requires
        b.wf(),
    ensures
        b.current() matches Some(c) ==> forall|i: int| 0 <= i < c.2.len() ==> (#[trigger] c.2[i]).timestamp < c.1,
        b.current() matches Some(c) ==> c.1 == c.0 + b.duration(),
{
}

} // verus!

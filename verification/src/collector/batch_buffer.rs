use vstd::prelude::*;
use std::collections::VecDeque;
use crate::collector::batch::{LogBatch, batch_view};
use crate::config::types::BufferStrategy;

verus! {

/// Errors of the batch buffer.
#[derive(Debug)]
pub enum BufferError {
    /// The buffer holds its maximum and refuses new batches.
    BufferFull,
}

/// Figures about the buffer.
#[derive(Clone, Copy, Debug)]
pub struct BufferStats {
    pub current_epochs: usize,
    pub max_epochs: usize,
    pub oldest_sequence: u64,
    pub newest_sequence: u64,
    pub acknowledged_count: usize,
}

/// Batches waiting to be fetched and acknowledged, oldest first.
pub struct BatchBuffer {
    max_epochs: usize,
    strategy: BufferStrategy,
    buffer: VecDeque<LogBatch>,
    /// Acknowledged sequence numbers, each once.
    acknowledged: Vec<u64>,
}

/// The batches after the sequence number (all of them for `None`), in order.
pub open spec fn batches_after(s: Seq<LogBatch>, after: Option<u64>) -> Seq<LogBatch>
    decreases s.len(),
{
    if s.len() == 0 {
        Seq::empty()
    } else {
        let r = batches_after(s.drop_last(), after);
        if after matches Some(a) && s.last().sequence_num <= a { r } else { r.push(s.last()) }
    }
}

/// The batches whose sequence number is not acknowledged, in order.
pub open spec fn unacknowledged(s: Seq<LogBatch>, acked: Set<u64>) -> Seq<LogBatch>
    decreases s.len(),
{
    if s.len() == 0 {
        Seq::empty()
    } else {
        let r = unacknowledged(s.drop_last(), acked);
        if acked.contains(s.last().sequence_num) { r } else { r.push(s.last()) }
    }
}

/// What a push does: whether the batch is taken, and the batches after.
pub open spec fn push_outcome(s: Seq<LogBatch>, max: usize, strategy: BufferStrategy, batch: LogBatch) -> (bool, Seq<LogBatch>) {
    if s.len() < max {
        (true, s.push(batch))
    } else {
        match strategy {
            BufferStrategy::Block => (false, s),
            BufferStrategy::DropOldest => (true, (if s.len() > 0 { s.drop_first() } else { s }).push(batch)),
            BufferStrategy::WaitForever => (true, s.push(batch)),
        }
    }
}

/// Law: under `Block`, and under `DropOldest` with room for one batch, a
/// buffer within its limit stays within it.
pub proof fn law_push_keeps_limit(s: Seq<LogBatch>, max: usize, strategy: BufferStrategy, batch: LogBatch)
    requires
        s.len() <= max,
        strategy is Block || (strategy is DropOldest && max >= 1),
    ensures
        push_outcome(s, max, strategy, batch).1.len() <= max,
{
}

/// Law: a push that is taken puts the batch last and keeps the order of
/// the others.
pub proof fn law_push_appends(s: Seq<LogBatch>, max: usize, strategy: BufferStrategy, batch: LogBatch)
    requires
        push_outcome(s, max, strategy, batch).0,
    ensures
        push_outcome(s, max, strategy, batch).1.last() == batch,
        push_outcome(s, max, strategy, batch).1.drop_last() == s || push_outcome(s, max, strategy, batch).1.drop_last() == s.drop_first(),
{
    assert(s.push(batch).drop_last() =~= s);
    if s.len() > 0 {
        assert(s.drop_first().push(batch).drop_last() =~= s.drop_first());
    }
}

impl BatchBuffer {
    /// The batches, oldest first.
    pub closed spec fn batches(&self) -> Seq<LogBatch> {
        self.buffer@
    }

    /// The acknowledged sequence numbers.
    pub closed spec fn acked(&self) -> Set<u64> {
        self.acknowledged@.to_set()
    }

    pub closed spec fn max(&self) -> usize {
        self.max_epochs
    }

    pub closed spec fn strategy(&self) -> BufferStrategy {
        self.strategy
    }

    pub closed spec fn wf(&self) -> bool {
        self.acknowledged@.no_duplicates()
    }

    /// An empty buffer holding at most `max_epochs` batches (a hint only
    /// under `WaitForever`).
    pub fn new(max_epochs: usize, strategy: BufferStrategy) -> (b: Self)
        ensures
            b.wf(),
            b.batches() == Seq::<LogBatch>::empty(),
            b.acked() == Set::<u64>::empty(),
            b.max() == max_epochs,
            b.strategy() == strategy,
    {
        BatchBuffer { max_epochs, strategy, buffer: VecDeque::new(), acknowledged: Vec::new() }
    }

    /// Adds a batch at the end. When the buffer is full, `Block` refuses
    /// it, `DropOldest` drops the oldest batch first, `WaitForever` grows.
    pub fn push(&mut self, batch: LogBatch) -> (r: Result<(), BufferError>)
        requires
            old(self).wf(),
        ensures
            final(self).wf(),
            final(self).acked() == old(self).acked(),
            final(self).max() == old(self).max(),
            final(self).strategy() == old(self).strategy(),
            (r is Ok, final(self).batches()) == push_outcome(old(self).batches(), old(self).max(), old(self).strategy(), batch),
    {
        if self.buffer.len() >= self.max_epochs {
            match self.strategy {
                BufferStrategy::Block => {
                    return Err(BufferError::BufferFull);
                },
                BufferStrategy::DropOldest => {
                    let _ = self.buffer.pop_front();
                },
                BufferStrategy::WaitForever => {},
            }
        }
        self.buffer.push_back(batch);
        Ok(())
    }

    /// Copies of the batches after the sequence number (all for `None`),
    /// oldest first, at most `limit` of them.
    pub fn get_batches(&self, after_seq: Option<u64>, limit: usize) -> (r: Vec<LogBatch>)
        ensures
            ({
                let all = batches_after(self.batches(), after_seq);
                let n = if limit < all.len() { limit as int } else { all.len() as int };
                &&& r@.len() == n
                &&& forall|i: int| 0 <= i < n ==> #[trigger] batch_view(r@[i]) == batch_view(all[i])
            }),
    {
        let ghost s = self.buffer@;
        let mut out: Vec<LogBatch> = Vec::new();
        let mut i: usize = 0;
        let n = self.buffer.len();
        while i < n && out.len() < limit
            invariant
                n == s.len(),
                s == self.buffer@,
                i <= n,
                out@.len() <= limit,
                out@.len() <= batches_after(s.take(i as int), after_seq).len(),
                forall|q: int| 0 <= q < out@.len() ==> #[trigger] batch_view(out@[q]) == batch_view(batches_after(s.take(i as int), after_seq)[q]),
                out@.len() < limit ==> out@.len() == batches_after(s.take(i as int), after_seq).len(),
            decreases n - i,
        {
            assert(s.take(i as int + 1).drop_last() =~= s.take(i as int));
            let b = &self.buffer[i];
            let keep = match after_seq {
                None => true,
                Some(a) => b.sequence_num > a,
            };
            if keep {
                out.push(b.clone());
            }
            i += 1;
        }
        proof {
            lemma_batches_after_prefix(s, after_seq, i as int);
            if out@.len() < limit {
                assert(s.take(n as int) =~= s);
            }
        }
        out
    }

    /// Acknowledges the sequence numbers; returns how many were given.
    pub fn acknowledge(&mut self, sequence_nums: Vec<u64>) -> (n: usize)
        requires
            old(self).wf(),
        ensures
            final(self).wf(),
            n == sequence_nums@.len(),
            final(self).acked() == old(self).acked().union(sequence_nums@.to_set()),
            final(self).batches() == old(self).batches(),
            final(self).max() == old(self).max(),
            final(self).strategy() == old(self).strategy(),
    {
        let count = sequence_nums.len();
        let ghost a0 = self.acknowledged@.to_set();
        let mut i: usize = 0;
        while i < sequence_nums.len()
            invariant
                i <= sequence_nums@.len(),
                self.acknowledged@.no_duplicates(),
                self.acknowledged@.to_set() == a0.union(sequence_nums@.take(i as int).to_set()),
                self.buffer@ == old(self).buffer@,
                self.max_epochs == old(self).max_epochs,
                self.strategy == old(self).strategy,
            decreases sequence_nums@.len() - i,
        {
            let x = sequence_nums[i];
            let ghost before = self.acknowledged@;
            let present = contains_u64(&self.acknowledged, x);
            if !present {
                self.acknowledged.push(x);
                proof {
                    assert(self.acknowledged@ == before.push(x));
                    assert(self.acknowledged@.no_duplicates()) by {
                        assert forall|p: int, q: int| 0 <= p < self.acknowledged@.len() && 0 <= q < self.acknowledged@.len() && p != q
                            implies self.acknowledged@[p] != self.acknowledged@[q] by {
                            if p < before.len() && q < before.len() {
                                assert(self.acknowledged@[p] == before[p] && self.acknowledged@[q] == before[q]);
                            } else if p < before.len() {
                                assert(self.acknowledged@[p] == before[p]);
                                assert(before.contains(before[p]));
                            } else {
                                assert(self.acknowledged@[q] == before[q]);
                                assert(before.contains(before[q]));
                            }
                        }
                    }
                }
            }
            proof {
                let t = sequence_nums@.take(i as int);
                let t1 = sequence_nums@.take(i as int + 1);
                assert(t1 =~= t.push(x));
                assert(t1.to_set() =~= t.to_set().insert(x)) by {
                    assert forall|y: u64| t1.to_set().contains(y) <==> t.to_set().insert(x).contains(y) by {
                        if t1.contains(y) {
                            let q = choose|q: int| 0 <= q < t1.len() && #[trigger] t1[q] == y;
                            if q < t.len() { assert(t[q] == y); }
                        }
                        if t.contains(y) {
                            let q = choose|q: int| 0 <= q < t.len() && #[trigger] t[q] == y;
                            assert(t1[q] == y);
                        }
                        if y == x { assert(t1[t.len() as int] == y); }
                    }
                }
                assert(self.acknowledged@.to_set() =~= before.to_set().insert(x)) by {
                    assert forall|y: u64| self.acknowledged@.to_set().contains(y) <==> before.to_set().insert(x).contains(y) by {
                        if !present {
                            let a = self.acknowledged@;
                            if a.contains(y) {
                                let q = choose|q: int| 0 <= q < a.len() && #[trigger] a[q] == y;
                                if q < before.len() { assert(before[q] == y); }
                            }
                            if before.contains(y) {
                                let q = choose|q: int| 0 <= q < before.len() && #[trigger] before[q] == y;
                                assert(a[q] == y);
                            }
                            if y == x { assert(a[before.len() as int] == y); }
                        }
                    }
                }
            }
            i += 1;
        }
        assert(sequence_nums@.take(sequence_nums@.len() as int) =~= sequence_nums@);
        count
    }

    /// Drops the acknowledged batches and forgets the acknowledgements;
    /// returns how many batches were dropped.
    pub fn compact(&mut self) -> (removed: usize)
        requires
            old(self).wf(),
        ensures
            final(self).wf(),
            final(self).batches() == unacknowledged(old(self).batches(), old(self).acked()),
            removed == old(self).batches().len() - final(self).batches().len(),
            final(self).acked() == Set::<u64>::empty(),
            final(self).max() == old(self).max(),
            final(self).strategy() == old(self).strategy(),
    {
        let ghost s = self.buffer@;
        let ghost acked = self.acknowledged@.to_set();
        let before = self.buffer.len();
        let mut kept: VecDeque<LogBatch> = VecDeque::new();
        while self.buffer.len() > 0
            invariant
                s == old(self).buffer@,
                acked == old(self).acknowledged@.to_set(),
                self.acknowledged == old(self).acknowledged,
                self.max_epochs == old(self).max_epochs,
                self.strategy == old(self).strategy,
                s.len() == before,
                self.buffer@.len() <= before,
                self.buffer@ == s.skip(before - self.buffer@.len()),
                kept@ == unacknowledged(s.take(before - self.buffer@.len()), acked),
            decreases self.buffer@.len(),
        {
            let ghost k = before - self.buffer@.len();
            let b = self.buffer.pop_front().unwrap();
            assert(s.take(k + 1).drop_last() =~= s.take(k));
            assert(s[k] == b);
            let acked_b = contains_u64(&self.acknowledged, b.sequence_num);
            if !acked_b {
                kept.push_back(b);
            }
            assert(self.buffer@ =~= s.skip(k + 1));
        }
        assert(s.take(before as int) =~= s);
        proof {
            lemma_unacknowledged_len(s, acked);
        }
        let after = kept.len();
        self.buffer = kept;
        self.acknowledged = Vec::new();
        assert(self.acknowledged@.to_set() =~= Set::<u64>::empty());
        before - after
    }

    /// Figures about the buffer: its size and limit, the sequence numbers
    /// of its oldest and newest batches (0 when empty), and the number of
    /// acknowledged sequence numbers.
    pub fn stats(&self) -> (st: BufferStats)
        requires
            self.wf(),
        ensures
            st.current_epochs == self.batches().len(),
            st.max_epochs == self.max(),
            st.oldest_sequence == if self.batches().len() > 0 { self.batches()[0].sequence_num } else { 0 },
            st.newest_sequence == if self.batches().len() > 0 { self.batches().last().sequence_num } else { 0 },
            st.acknowledged_count == self.acked().len(),
    {
        let n = self.buffer.len();
        let oldest = if n > 0 { self.buffer[0].sequence_num } else { 0 };
        let newest = if n > 0 { self.buffer[n - 1].sequence_num } else { 0 };
        proof {
            self.acknowledged@.unique_seq_to_set();
        }
        BufferStats {
            current_epochs: n,
            max_epochs: self.max_epochs,
            oldest_sequence: oldest,
            newest_sequence: newest,
            acknowledged_count: self.acknowledged.len(),
        }
    }

    /// Empties the buffer and forgets the acknowledgements.
    pub fn clear(&mut self)
        ensures
            final(self).wf(),
            final(self).batches() == Seq::<LogBatch>::empty(),
            final(self).acked() == Set::<u64>::empty(),
            final(self).max() == old(self).max(),
            final(self).strategy() == old(self).strategy(),
    {
        self.buffer.clear();
        self.acknowledged = Vec::new();
        assert(self.acknowledged@.to_set() =~= Set::<u64>::empty());
    }
}

fn contains_u64(v: &Vec<u64>, x: u64) -> (b: bool)
    ensures
        b == v@.contains(x),
{
    let mut i: usize = 0;
    while i < v.len()
        invariant
            i <= v@.len(),
            forall|q: int| 0 <= q < i ==> v@[q] != x,
        decreases v@.len() - i,
    {
        if v[i] == x {
            return true;
        }
        i += 1;
    }
    false
}

proof fn lemma_unacknowledged_len(s: Seq<LogBatch>, acked: Set<u64>)
    ensures
        unacknowledged(s, acked).len() <= s.len(),
    decreases s.len(),
{
    if s.len() > 0 {
        lemma_unacknowledged_len(s.drop_last(), acked);
    }
}

proof fn lemma_batches_after_prefix(s: Seq<LogBatch>, after: Option<u64>, i: int)
    requires
        0 <= i <= s.len(),
    ensures
        batches_after(s.take(i), after).len() <= batches_after(s, after).len(),
        batches_after(s.take(i), after) == batches_after(s, after).take(batches_after(s.take(i), after).len() as int),
    decreases s.len() - i,
{
    if i < s.len() {
        lemma_batches_after_prefix(s, after, i + 1);
        let t = s.take(i + 1);
        assert(t.drop_last() =~= s.take(i));
        let a = batches_after(s.take(i), after);
        let a1 = batches_after(t, after);
        let full = batches_after(s, after);
        assert(a == a1.take(a.len() as int)) by {
            assert(a1 == a || a1 == a.push(s[i]));
            if a1 == a.push(s[i]) {
                assert(a1.take(a.len() as int) =~= a);
            } else {
                assert(a1.take(a.len() as int) =~= a);
            }
        }
        assert(a =~= full.take(a.len() as int)) by {
            assert(a1 == full.take(a1.len() as int));
        }
    } else {
        assert(s.take(i) =~= s);
        assert(batches_after(s, after).take(batches_after(s, after).len() as int) =~= batches_after(s, after));
    }
}

} // verus!

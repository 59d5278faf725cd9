use vstd::prelude::*;
use crate::assoc::{AssocMap, to_map, has_key, unique_keys, lemma_to_map_dom, lemma_to_map_unique};
use crate::config::types::GapMode;
use crate::fiber::rule::{CompiledFiberType, CompiledPattern, AttributeDef, spec_interpolate, attr_type_of};
use crate::fiber::session::spec_attribute_from_str;
use crate::config::types::AttributeType;
use crate::matcher::{regex_captures, regex_group_names, opt_views};
use crate::source::reader::LogRecord;
use crate::text::{string_views, clone_strings, contains_string};
use crate::fiber::session::{AttributeValue, AttrView, FiberView, OpenFiber, merged_attributes};
use crate::storage::traits::{FiberMembership, FiberRecord};
use crate::storage::checkpoint::{FiberProcessorCheckpoint, OpenFiberCheckpoint};
use crate::time::{Timestamp, Nanos, valid_timestamp, valid_delta};
use crate::config::types::{Config, FiberTypeConfig};
use crate::config::parse::{entry_names, create_auto_source_fiber_config, is_auto_source_config};
use crate::fiber::rule::{RuleError, RuleIssue, issue_of, fiber_type_issue, fiber_type_compiled};
use crate::fiber::key_index::{index_exact, law_match_keeps_index_exact, law_unmatched_keeps_index_exact};

verus! {

/// What processing one log did.
pub struct ProcessResult {
    /// New memberships (log to fiber).
    pub memberships: Vec<FiberMembership>,
    /// Fibers created.
    pub new_fibers: Vec<FiberRecord>,
    /// Fibers whose keys, attributes or logs changed.
    pub updated_fibers: Vec<FiberRecord>,
    /// Fibers closed.
    pub closed_fiber_ids: Vec<u128>,
    /// Fibers merged into another fiber.
    pub merged_fiber_ids: Vec<u128>,
}

impl ProcessResult {
    /// A result in which nothing happened.
    pub fn new() -> (r: Self)
        ensures
            r.memberships@.len() == 0,
            r.new_fibers@.len() == 0,
            r.updated_fibers@.len() == 0,
            r.closed_fiber_ids@.len() == 0,
            r.merged_fiber_ids@.len() == 0,
    {
        ProcessResult {
            memberships: Vec::new(),
            new_fibers: Vec::new(),
            updated_fibers: Vec::new(),
            closed_fiber_ids: Vec::new(),
            merged_fiber_ids: Vec::new(),
        }
    }
}

impl Default for ProcessResult {
    fn default() -> (r: Self)
        ensures
            r.memberships@.len() == 0,
            r.new_fibers@.len() == 0,
            r.updated_fibers@.len() == 0,
            r.closed_fiber_ids@.len() == 0,
            r.merged_fiber_ids@.len() == 0,
    {
        ProcessResult::new()
    }
}

/// Key pairs (name, value) of the fiber index.
pub type KeyPair = (Seq<char>, Seq<char>);

/// The pair is one of the fiber's keys with its value.
pub open spec fn is_key_pair(keys: Map<Seq<char>, Seq<char>>, p: KeyPair) -> bool {
    keys.dom().contains(p.0) && keys[p.0] == p.1
}

/// Every key of every open fiber is indexed to that fiber.
pub open spec fn keys_indexed(fibers: Map<u128, FiberView>, index: Map<KeyPair, u128>) -> bool {
    forall|fid: u128, k: Seq<char>| fibers.dom().contains(fid) && #[trigger] fibers[fid].keys.dom().contains(k)
        ==> index.dom().contains((k, fibers[fid].keys[k])) && index[(k, fibers[fid].keys[k])] == fid
}

/// The index without the key pairs of the given fibers.
pub open spec fn drop_pairs(index: Map<KeyPair, u128>, fibers: Map<u128, FiberView>, gone: Set<u128>) -> Map<KeyPair, u128> {
    Map::new(
        |p: KeyPair| index.dom().contains(p) && !(exists|fid: u128| gone.contains(fid) && fibers.dom().contains(fid) && #[trigger] is_key_pair(fibers[fid].keys, p)),
        |p: KeyPair| index[p],
    )
}

/// The fibers without the given ones.
pub open spec fn without(fibers: Map<u128, FiberView>, gone: Set<u128>) -> Map<u128, FiberView> {
    fibers.remove_keys(gone)
}

/// The instant a fiber's gap is measured from.
pub open spec fn reference_time(f: FiberView, mode: GapMode) -> Timestamp {
    match mode {
        GapMode::Session => f.last_activity,
        GapMode::FromStart => f.first_activity,
    }
}

/// More than the allowed gap has passed since the fiber's reference instant.
pub open spec fn timed_out(f: FiberView, clock: Timestamp, gap: Nanos, mode: GapMode) -> bool {
    clock - reference_time(f, mode) > gap
}

/// The record of an open fiber.
pub open spec fn record_of(r: FiberRecord, f: FiberView, version: u64) -> bool {
    &&& r.fiber_id == f.fiber_id
    &&& r.fiber_type@ == f.fiber_type
    &&& r.config_version == version
    &&& unique_keys(r.attributes@)
    &&& to_map(r.attributes@) == f.attributes
    &&& r.first_activity == f.first_activity
    &&& r.last_activity == f.last_activity
    &&& !r.closed
}

pub open spec fn fiber_entry_ok(e: (u128, OpenFiber)) -> bool {
    &&& e.1.wf()
    &&& e.1.fiber_id == e.0
    &&& valid_timestamp(e.1.first_activity)
    &&& valid_timestamp(e.1.last_activity)
}

/// Processor of one fiber type: its open fibers and the index of their keys.
pub struct FiberTypeProcessor {
    fiber_type: CompiledFiberType,
    config_version: u64,
    open_fibers: AssocMap<u128, OpenFiber>,
    key_index: AssocMap<(String, String), u128>,
    logical_clock: Option<Timestamp>,
}

/// The compiled fiber type can be run: its maps are well formed and its
/// longest gap converts to a time delta.
pub open spec fn runnable(ft: CompiledFiberType) -> bool {
    &&& ft.derived_templates.wf()
    &&& ft.source_patterns.wf()
    &&& (ft.temporal.max_gap matches Some(g) ==> valid_delta(g))
}

impl FiberTypeProcessor {
    /// The compiled fiber type.
    pub closed spec fn ft(&self) -> CompiledFiberType {
        self.fiber_type
    }

    /// The configuration version written into records.
    pub closed spec fn version(&self) -> u64 {
        self.config_version
    }

    /// The open fibers by id.
    pub closed spec fn fibers(&self) -> Map<u128, FiberView> {
        self.open_fibers.map()
    }

    /// The key index: (key name, value) to fiber id.
    pub closed spec fn index(&self) -> Map<KeyPair, u128> {
        self.key_index.map()
    }

    /// The timestamp of the latest processed log.
    pub closed spec fn clock(&self) -> Option<Timestamp> {
        self.logical_clock
    }

    pub closed spec fn wf(&self) -> bool {
        &&& runnable(self.fiber_type)
        &&& self.open_fibers.wf()
        &&& self.key_index.wf()
        &&& forall|i: int| 0 <= i < self.open_fibers.seq().len() ==> #[trigger] fiber_entry_ok(self.open_fibers.seq()[i])
        &&& keys_indexed(self.open_fibers.map(), self.key_index.map())
        &&& (self.logical_clock matches Some(c) ==> valid_timestamp(c))
    }

    /// A processor with no open fibers.
    pub fn new(fiber_type: CompiledFiberType, config_version: u64) -> (p: Self)
        requires
            runnable(fiber_type),
        ensures
            p.wf(),
            p.ft() == fiber_type,
            p.version() == config_version,
            p.fibers() == Map::<u128, FiberView>::empty(),
            p.index() == Map::<KeyPair, u128>::empty(),
            p.clock() is None,
            index_exact(p.fibers(), p.index()),
    {
        FiberTypeProcessor {
            fiber_type,
            config_version,
            open_fibers: AssocMap::new(),
            key_index: AssocMap::new(),
            logical_clock: None,
        }
    }

    /// The name of the fiber type.
    pub fn fiber_type_name(&self) -> (s: &str)
        ensures
            s@ == self.ft().name@,
    {
        self.fiber_type.name.as_str()
    }

    /// The number of open fibers.
    pub fn open_fiber_count(&self) -> (n: usize)
        requires
            self.wf(),
        ensures
            n == self.fibers().dom().len(),
    {
        proof {
            lemma_to_map_unique(self.open_fibers.entries@);
            crate::assoc::lemma_to_map_len(self.open_fibers.entries@);
        }
        self.open_fibers.len()
    }
}


/// The entry list holds the pair.
pub open spec fn pair_listed(s: Seq<(String, String)>, p: KeyPair) -> bool {
    exists|j: int| 0 <= j < s.len() && #[trigger] s[j].0@ == p.0 && s[j].1@ == p.1
}

proof fn lemma_pairs_listed(s: Seq<(String, String)>)
    requires
        unique_keys(s),
    ensures
        forall|p: KeyPair| #[trigger] pair_listed(s, p) <==> is_key_pair(to_map(s), p),
{
    lemma_to_map_unique(s);
    assert forall|p: KeyPair| #[trigger] pair_listed(s, p) <==> is_key_pair(to_map(s), p) by {
        if is_key_pair(to_map(s), p) {
            assert(has_key(s, p.0));
            let j = choose|j: int| 0 <= j < s.len() && #[trigger] s[j].0@ == p.0;
            assert(to_map(s)[s[j].0@] == s[j].1@);
        }
    }
}

/// The fibers that have timed out at the clock.
pub open spec fn timed_out_set(fibers: Map<u128, FiberView>, clock: Timestamp, gap: Nanos, mode: GapMode) -> Set<u128> {
    Set::new(|fid: u128| fibers.dom().contains(fid) && timed_out(fibers[fid], clock, gap, mode))
}

/// `after` is `before` followed by a list of distinct ids forming `ids`.
pub open spec fn appended_set(before: Seq<u128>, after: Seq<u128>, ids: Set<u128>) -> bool {
    &&& after.len() >= before.len()
    &&& after.take(before.len() as int) == before
    &&& after.skip(before.len() as int).no_duplicates()
    &&& after.skip(before.len() as int).to_set() == ids
}

impl FiberTypeProcessor {
    /// Closes a fiber: it leaves the open fibers and its keys leave the index.
    fn close_fiber(&mut self, fiber_id: u128, result: &mut ProcessResult)
        requires
            old(self).wf(),
        ensures
            final(self).wf(),
            final(self).ft() == old(self).ft(),
            final(self).version() == old(self).version(),
            final(self).clock() == old(self).clock(),
            old(self).fibers().dom().contains(fiber_id) ==> {
                &&& final(self).fibers() == old(self).fibers().remove(fiber_id)
                &&& final(self).index() == drop_pairs(old(self).index(), old(self).fibers(), set![fiber_id])
                &&& final(result).closed_fiber_ids@ == old(result).closed_fiber_ids@.push(fiber_id)
            },
            !old(self).fibers().dom().contains(fiber_id) ==> {
                &&& final(self).fibers() == old(self).fibers()
                &&& final(self).index() == old(self).index()
                &&& final(result).closed_fiber_ids@ == old(result).closed_fiber_ids@
            },
            final(result).memberships@ == old(result).memberships@,
            final(result).new_fibers@ == old(result).new_fibers@,
            final(result).updated_fibers@ == old(result).updated_fibers@,
            final(result).merged_fiber_ids@ == old(result).merged_fiber_ids@,
    {
        let ghost f0 = self.open_fibers.map();
        let ghost i0 = self.key_index.map();
        let ghost s0 = self.open_fibers.seq();
        match self.open_fibers.remove(&fiber_id) {
            Some(f) => {
                let ghost w = choose|w: int| 0 <= w < s0.len() && s0[w].0@ == fiber_id && s0[w].1 == f
                    && self.open_fibers.seq() == s0.remove(w);
                assert(fiber_entry_ok(s0[w]));
                assert(f@ == f0[fiber_id]);
                let ghost ks = f.keys.seq();
                let ghost of1 = self.open_fibers;
                proof {
                    lemma_pairs_listed(ks);
                }
                let n = f.keys.entries.len();
                let mut i: usize = 0;
                while i < n
                    invariant
                        n == ks.len(),
                        ks == f.keys.seq(),
                        i <= n,
                        self.open_fibers == of1,
                        self.fiber_type == old(self).fiber_type,
                        self.config_version == old(self).config_version,
                        self.logical_clock == old(self).logical_clock,
                        self.key_index.wf(),
                        forall|p: KeyPair| #[trigger] self.key_index.map().dom().contains(p) <==>
                            (i0.dom().contains(p) && !pair_listed(ks.take(i as int), p)),
                        forall|p: KeyPair| #[trigger] self.key_index.map().dom().contains(p) ==> self.key_index.map()[p] == i0[p],
                    decreases n - i,
                {
                    let e = &f.keys.entries[i];
                    let ghost before = self.key_index.map();
                    self.key_index.remove(&(e.0.clone(), e.1.clone()));
                    proof {
                        let t1 = ks.take(i as int + 1);
                        assert forall|p: KeyPair| #[trigger] pair_listed(t1, p) <==> (pair_listed(ks.take(i as int), p) || (p.0 == ks[i as int].0@ && p.1 == ks[i as int].1@)) by {
                            if pair_listed(t1, p) {
                                let j = choose|j: int| 0 <= j < t1.len() && #[trigger] t1[j].0@ == p.0 && t1[j].1@ == p.1;
                                if j < i {
                                    assert(ks.take(i as int)[j] == t1[j]);
                                }
                            }
                            if pair_listed(ks.take(i as int), p) {
                                let j = choose|j: int| 0 <= j < ks.take(i as int).len() && #[trigger] ks.take(i as int)[j].0@ == p.0 && ks.take(i as int)[j].1@ == p.1;
                                assert(t1[j] == ks.take(i as int)[j]);
                            }
                            if p.0 == ks[i as int].0@ && p.1 == ks[i as int].1@ {
                                assert(t1[i as int] == ks[i as int]);
                            }
                        }
                    }
                    i += 1;
                }
                assert(ks.take(n as int) =~= ks);
                result.closed_fiber_ids.push(fiber_id);
                proof {
                    let f1 = self.open_fibers.map();
                    let i1 = self.key_index.map();
                    assert(i1 =~= drop_pairs(i0, f0, set![fiber_id])) by {
                        assert forall|p: KeyPair| #[trigger] i1.dom().contains(p) <==> drop_pairs(i0, f0, set![fiber_id]).dom().contains(p) by {
                            if is_key_pair(f0[fiber_id].keys, p) {
                                assert(set![fiber_id].contains(fiber_id));
                            }
                            if exists|fid: u128| set![fiber_id].contains(fid) && f0.dom().contains(fid) && #[trigger] is_key_pair(f0[fid].keys, p) {
                                let fid = choose|fid: u128| set![fiber_id].contains(fid) && f0.dom().contains(fid) && #[trigger] is_key_pair(f0[fid].keys, p);
                                assert(fid == fiber_id);
                            }
                        }
                    }
                    assert forall|q: int| 0 <= q < self.open_fibers.seq().len() implies #[trigger] fiber_entry_ok(self.open_fibers.seq()[q]) by {
                        let q2 = if q < w { q } else { q + 1 };
                        assert(self.open_fibers.seq()[q] == s0[q2]);
                        assert(fiber_entry_ok(s0[q2]));
                    }
                    assert forall|fid: u128, k: Seq<char>| f1.dom().contains(fid) && #[trigger] f1[fid].keys.dom().contains(k)
                        implies i1.dom().contains((k, f1[fid].keys[k])) && i1[(k, f1[fid].keys[k])] == fid by {
                        assert(f0.dom().contains(fid) && f0[fid] == f1[fid]);
                        assert(f0[fid].keys.dom().contains(k));
                        let p = (k, f1[fid].keys[k]);
                        assert(i0.dom().contains(p) && i0[p] == fid);
                        if is_key_pair(f0[fiber_id].keys, p) {
                            assert(f0[fiber_id].keys.dom().contains(k));
                            assert(i0[p] == fiber_id);
                        }
                    }
                }
            },
            None => {},
        }
    }
}


impl FiberTypeProcessor {
    /// Closes each of the fibers, in order.
    fn close_all(&mut self, ids: &Vec<u128>, result: &mut ProcessResult)
        requires
            old(self).wf(),
            ids@.no_duplicates(),
            forall|j: int| 0 <= j < ids@.len() ==> old(self).fibers().dom().contains(#[trigger] ids@[j]),
        ensures
            final(self).wf(),
            final(self).ft() == old(self).ft(),
            final(self).version() == old(self).version(),
            final(self).clock() == old(self).clock(),
            final(self).fibers() == without(old(self).fibers(), ids@.to_set()),
            final(self).index() == drop_pairs(old(self).index(), old(self).fibers(), ids@.to_set()),
            final(result).closed_fiber_ids@ == old(result).closed_fiber_ids@ + ids@,
            final(result).memberships@ == old(result).memberships@,
            final(result).new_fibers@ == old(result).new_fibers@,
            final(result).updated_fibers@ == old(result).updated_fibers@,
            final(result).merged_fiber_ids@ == old(result).merged_fiber_ids@,
    {
        let ghost f0 = self.fibers();
        let ghost i0 = self.index();
        let ghost c0 = result.closed_fiber_ids@;
        let mut j: usize = 0;
        assert(without(f0, ids@.take(0).to_set()) =~= f0);
        assert(drop_pairs(i0, f0, ids@.take(0).to_set()) =~= i0);
        while j < ids.len()
            invariant
                j <= ids@.len(),
                ids@.no_duplicates(),
                forall|q: int| 0 <= q < ids@.len() ==> f0.dom().contains(#[trigger] ids@[q]),
                self.wf(),
                self.ft() == old(self).ft(),
                self.version() == old(self).version(),
                self.clock() == old(self).clock(),
                self.fibers() == without(f0, ids@.take(j as int).to_set()),
                self.index() == drop_pairs(i0, f0, ids@.take(j as int).to_set()),
                result.closed_fiber_ids@ == c0 + ids@.take(j as int),
                result.memberships@ == old(result).memberships@,
                result.new_fibers@ == old(result).new_fibers@,
                result.updated_fibers@ == old(result).updated_fibers@,
                result.merged_fiber_ids@ == old(result).merged_fiber_ids@,
            decreases ids@.len() - j,
        {
            let id = ids[j];
            let ghost t = ids@.take(j as int).to_set();
            let ghost t1 = ids@.take(j as int + 1).to_set();
            assert(t1 =~= t.insert(id)) by {
                assert forall|x: u128| t1.contains(x) <==> t.insert(id).contains(x) by {
                    if t1.contains(x) {
                        let q = choose|q: int| 0 <= q < j + 1 && #[trigger] ids@.take(j as int + 1)[q] == x;
                        if q < j {
                            assert(ids@.take(j as int)[q] == x);
                        }
                    }
                    if t.contains(x) {
                        let q = choose|q: int| 0 <= q < j && #[trigger] ids@.take(j as int)[q] == x;
                        assert(ids@.take(j as int + 1)[q] == x);
                    }
                    if x == id {
                        assert(ids@.take(j as int + 1)[j as int] == x);
                    }
                }
            }
            assert(!t.contains(id)) by {
                if t.contains(id) {
                    let q = choose|q: int| 0 <= q < j && #[trigger] ids@.take(j as int)[q] == id;
                    assert(ids@[q] == ids@[j as int]);
                }
            }
            let ghost fb = self.fibers();
            let ghost ib = self.index();
            self.close_fiber(id, result);
            proof {
                assert(self.fibers() =~= without(f0, t1));
                assert(self.index() =~= drop_pairs(i0, f0, t1)) by {
                    assert forall|p: KeyPair| #[trigger] self.index().dom().contains(p) <==> drop_pairs(i0, f0, t1).dom().contains(p) by {
                        if exists|fid: u128| t1.contains(fid) && f0.dom().contains(fid) && #[trigger] is_key_pair(f0[fid].keys, p) {
                            let fid = choose|fid: u128| t1.contains(fid) && f0.dom().contains(fid) && #[trigger] is_key_pair(f0[fid].keys, p);
                            if fid == id {
                                assert(set![id].contains(id) && fb.dom().contains(id) && is_key_pair(fb[id].keys, p));
                            } else {
                                assert(t.contains(fid));
                            }
                        }
                        if exists|fid: u128| set![id].contains(fid) && fb.dom().contains(fid) && #[trigger] is_key_pair(fb[fid].keys, p) {
                            let fid = choose|fid: u128| set![id].contains(fid) && fb.dom().contains(fid) && #[trigger] is_key_pair(fb[fid].keys, p);
                            assert(fid == id && t1.contains(id) && f0.dom().contains(id) && f0[id] == fb[id]);
                        }
                        if exists|fid: u128| t.contains(fid) && f0.dom().contains(fid) && #[trigger] is_key_pair(f0[fid].keys, p) {
                            let fid = choose|fid: u128| t.contains(fid) && f0.dom().contains(fid) && #[trigger] is_key_pair(f0[fid].keys, p);
                            assert(t1.contains(fid));
                        }
                    }
                }
                assert(result.closed_fiber_ids@ =~= c0 + ids@.take(j as int + 1));
            }
            j += 1;
        }
        assert(ids@.take(ids@.len() as int) =~= ids@);
    }

    /// Closes every fiber whose gap from its reference instant to the
    /// logical clock exceeds the fiber type's longest gap.
    fn check_timeouts(&mut self, result: &mut ProcessResult)
        requires
            old(self).wf(),
        ensures
            final(self).wf(),
            final(self).ft() == old(self).ft(),
            final(self).version() == old(self).version(),
            final(self).clock() == old(self).clock(),
            match (old(self).clock(), old(self).ft().temporal.max_gap) {
                (Some(c), Some(g)) => {
                    let t = timed_out_set(old(self).fibers(), c, g, old(self).ft().temporal.gap_mode);
                    &&& final(self).fibers() == without(old(self).fibers(), t)
                    &&& final(self).index() == drop_pairs(old(self).index(), old(self).fibers(), t)
                    &&& appended_set(old(result).closed_fiber_ids@, final(result).closed_fiber_ids@, t)
                },
                _ => {
                    &&& final(self).fibers() == old(self).fibers()
                    &&& final(self).index() == old(self).index()
                    &&& final(result).closed_fiber_ids@ == old(result).closed_fiber_ids@
                },
            },
            final(result).memberships@ == old(result).memberships@,
            final(result).new_fibers@ == old(result).new_fibers@,
            final(result).updated_fibers@ == old(result).updated_fibers@,
            final(result).merged_fiber_ids@ == old(result).merged_fiber_ids@,
    {
        let clock = match self.logical_clock {
            Some(c) => c,
            None => {
                return;
            },
        };
        let max_gap = match self.fiber_type.temporal.max_gap {
            Some(g) => g,
            None => {
                return;
            },
        };
        let mode = self.fiber_type.temporal.gap_mode;
        let ghost f0 = self.fibers();
        let ghost s = self.open_fibers.seq();
        proof {
            lemma_to_map_unique(s);
            assert(f0 == to_map(s));
            assert forall|q: int| 0 <= q < s.len() implies #[trigger] f0.dom().contains(s[q].0@) && f0[s[q].0@] == s[q].1@ by {
                crate::assoc::lemma_to_map_value(s, q);
            }
        }
        let mut to_close: Vec<u128> = Vec::new();
        let n = self.open_fibers.entries.len();
        let mut i: usize = 0;
        while i < n
            invariant
                n == s.len(),
                s == self.open_fibers.seq(),
                f0 == to_map(s),
                unique_keys(s),
                i <= n,
                self.wf(),
                valid_timestamp(clock),
                forall|q: int| 0 <= q < s.len() ==> #[trigger] f0.dom().contains(s[q].0@) && f0[s[q].0@] == s[q].1@,
                to_close@.no_duplicates(),
                forall|q: int| 0 <= q < to_close@.len() ==> f0.dom().contains(#[trigger] to_close@[q]),
                forall|x: u128| #[trigger] to_close@.contains(x) <==> (exists|q: int| 0 <= q < i && #[trigger] s[q].0 == x
                    && timed_out(s[q].1@, clock, max_gap, mode)),
            decreases n - i,
        {
            let e = &self.open_fibers.entries[i];
            assert(fiber_entry_ok(s[i as int]));
            let reference = match mode {
                GapMode::Session => e.1.last_activity,
                GapMode::FromStart => e.1.first_activity,
            };
            let d: i128 = clock - reference;
            let ghost tc0 = to_close@;
            if d > 0 && (d as u128) > max_gap {
                assert(!tc0.contains(e.0)) by {
                    if tc0.contains(e.0) {
                        let q = choose|q: int| 0 <= q < i && #[trigger] s[q].0 == e.0 && timed_out(s[q].1@, clock, max_gap, mode);
                        crate::assoc::lemma_unique_at(s, q, i as int);
                    }
                }
                assert(s[i as int].0 == e.0);
                assert(reference == reference_time(s[i as int].1@, mode));
                assert(timed_out(s[i as int].1@, clock, max_gap, mode));
                to_close.push(e.0);
                proof {
                    assert forall|x: u128| #[trigger] to_close@.contains(x) <==> (exists|q: int| 0 <= q < i + 1 && #[trigger] s[q].0 == x
                        && timed_out(s[q].1@, clock, max_gap, mode)) by {
                        if to_close@.contains(x) && x != e.0 {
                            let w = choose|w: int| 0 <= w < to_close@.len() && #[trigger] to_close@[w] == x;
                            assert(tc0[w] == x);
                            assert(tc0.contains(x));
                        }
                        if x == e.0 {
                            assert(s[i as int].0 == x);
                        }
                        if exists|q: int| 0 <= q < i + 1 && #[trigger] s[q].0 == x && timed_out(s[q].1@, clock, max_gap, mode) {
                            let q = choose|q: int| 0 <= q < i + 1 && #[trigger] s[q].0 == x && timed_out(s[q].1@, clock, max_gap, mode);
                            if q < i {
                                assert(tc0.contains(x));
                                let w = choose|w: int| 0 <= w < tc0.len() && #[trigger] tc0[w] == x;
                                assert(to_close@[w] == x);
                            } else {
                                assert(to_close@[tc0.len() as int] == x);
                            }
                        }
                    }
                }
            } else {
                proof {
                    assert forall|x: u128| #[trigger] to_close@.contains(x) <==> (exists|q: int| 0 <= q < i + 1 && #[trigger] s[q].0 == x
                        && timed_out(s[q].1@, clock, max_gap, mode)) by {
                        if exists|q: int| 0 <= q < i + 1 && #[trigger] s[q].0 == x && timed_out(s[q].1@, clock, max_gap, mode) {
                            let q = choose|q: int| 0 <= q < i + 1 && #[trigger] s[q].0 == x && timed_out(s[q].1@, clock, max_gap, mode);
                            assert(q < i);
                        }
                    }
                }
            }
            i += 1;
        }
        let ghost t = timed_out_set(f0, clock, max_gap, mode);
        assert(to_close@.to_set() =~= t) by {
            assert forall|x: u128| to_close@.to_set().contains(x) <==> t.contains(x) by {
                if t.contains(x) {
                    lemma_to_map_dom(s, x);
                    assert(has_key(s, x));
                    let q = choose|q: int| 0 <= q < s.len() && #[trigger] s[q].0@ == x;
                    assert(to_close@.contains(x));
                }
                if to_close@.contains(x) {
                    let q = choose|q: int| 0 <= q < n && #[trigger] s[q].0 == x && timed_out(s[q].1@, clock, max_gap, mode);
                    assert(f0[s[q].0@] == s[q].1@);
                }
            }
        }
        let ghost c0 = result.closed_fiber_ids@;
        self.close_all(&to_close, result);
        assert(result.closed_fiber_ids@.take(c0.len() as int) =~= c0);
        assert(result.closed_fiber_ids@.skip(c0.len() as int) =~= to_close@);
    }

    /// Closes all open fibers.
    pub fn flush(&mut self) -> (r: ProcessResult)
        requires
            old(self).wf(),
        ensures
            final(self).wf(),
            final(self).ft() == old(self).ft(),
            final(self).version() == old(self).version(),
            final(self).clock() == old(self).clock(),
            final(self).fibers() == Map::<u128, FiberView>::empty(),
            final(self).index() == drop_pairs(old(self).index(), old(self).fibers(), old(self).fibers().dom()),
            r.closed_fiber_ids@.no_duplicates(),
            r.closed_fiber_ids@.to_set() == old(self).fibers().dom(),
            r.memberships@.len() == 0,
            r.new_fibers@.len() == 0,
            r.updated_fibers@.len() == 0,
            r.merged_fiber_ids@.len() == 0,
    {
        let ghost f0 = self.fibers();
        let ghost s = self.open_fibers.seq();
        proof {
            assert forall|q: int| 0 <= q < s.len() implies #[trigger] f0.dom().contains(s[q].0@) by {
                crate::assoc::lemma_to_map_value(s, q);
            }
        }
        let mut ids: Vec<u128> = Vec::new();
        let n = self.open_fibers.entries.len();
        let mut i: usize = 0;
        while i < n
            invariant
                n == s.len(),
                s == self.open_fibers.seq(),
                f0 == to_map(s),
                unique_keys(s),
                i <= n,
                forall|q: int| 0 <= q < s.len() ==> #[trigger] f0.dom().contains(s[q].0@),
                ids@ == s.take(i as int).map_values(|e: (u128, OpenFiber)| e.0),
            decreases n - i,
        {
            ids.push(self.open_fibers.entries[i].0);
            assert(ids@ =~= s.take(i as int + 1).map_values(|e: (u128, OpenFiber)| e.0));
            i += 1;
        }
        assert(s.take(n as int) =~= s);
        assert(ids@.no_duplicates()) by {
            assert forall|a: int, b: int| 0 <= a < ids@.len() && 0 <= b < ids@.len() && a != b implies ids@[a] != ids@[b] by {
                crate::assoc::lemma_unique_at(s, a, b);
            }
        }
        assert(ids@.to_set() =~= f0.dom()) by {
            assert forall|x: u128| ids@.to_set().contains(x) <==> f0.dom().contains(x) by {
                if f0.dom().contains(x) {
                    lemma_to_map_dom(s, x);
                    assert(has_key(s, x));
                    let q = choose|q: int| 0 <= q < s.len() && #[trigger] s[q].0@ == x;
                    assert(ids@[q] == x);
                }
                if ids@.to_set().contains(x) {
                    let q = choose|q: int| 0 <= q < ids@.len() && #[trigger] ids@[q] == x;
                    assert(f0.dom().contains(s[q].0@));
                }
            }
        }
        let mut result = ProcessResult::new();
        self.close_all(&ids, &mut result);
        assert(self.fibers() =~= Map::<u128, FiberView>::empty());
        assert(result.closed_fiber_ids@ =~= ids@);
        result
    }
}


/// What the first matching pattern extracted from a log line.
pub struct PatternMatch {
    /// Captured text of each named group that took part in the match.
    pub extracted: AssocMap<String, String>,
    pub release_matching_peer_keys: Vec<String>,
    pub release_self_keys: Vec<String>,
    pub close: bool,
}

/// The captured text of each named group that took part in the match.
pub open spec fn captured_map(names: Seq<Option<Seq<char>>>, caps: Seq<Option<Seq<char>>>) -> Map<Seq<char>, Seq<char>>
    decreases names.len(),
{
    if names.len() == 0 || names.len() != caps.len() {
        Map::empty()
    } else {
        let r = captured_map(names.drop_last(), caps.drop_last());
        match (names.last(), caps.last()) {
            (Some(n), Some(t)) => r.insert(n, t),
            _ => r,
        }
    }
}

/// The position of the first pattern, from `i` on, that matches the text.
pub open spec fn match_from(pats: Seq<CompiledPattern>, text: Seq<char>, i: int) -> Option<int>
    decreases pats.len() - i,
{
    if i < 0 || i >= pats.len() {
        None
    } else if regex_captures(pats[i].regex.pattern(), text) is Some {
        Some(i)
    } else {
        match_from(pats, text, i + 1)
    }
}

/// `m` is what the pattern extracted from the text it matched.
pub open spec fn match_of(m: PatternMatch, p: CompiledPattern, text: Seq<char>) -> bool {
    &&& regex_captures(p.regex.pattern(), text) is Some
    &&& m.extracted.wf()
    &&& m.extracted.map() == captured_map(regex_group_names(p.regex.pattern()), regex_captures(p.regex.pattern(), text)->0)
    &&& string_views(m.release_matching_peer_keys@) == string_views(p.release_matching_peer_keys@)
    &&& string_views(m.release_self_keys@) == string_views(p.release_self_keys@)
    &&& m.close == p.close
}

/// The attributes after the derived attributes named in `order` are
/// computed in turn, each from the attributes known before it.
pub open spec fn derive_all(order: Seq<Seq<char>>, t: Map<Seq<char>, (Seq<char>, Seq<Seq<char>>)>, a: Map<Seq<char>, Seq<char>>) -> Map<Seq<char>, Seq<char>>
    decreases order.len(),
{
    if order.len() == 0 {
        a
    } else {
        let b = derive_all(order.drop_last(), t, a);
        let n = order.last();
        if t.dom().contains(n) && spec_interpolate(t[n], b) is Some {
            b.insert(n, spec_interpolate(t[n], b)->0)
        } else {
            b
        }
    }
}

impl FiberTypeProcessor {
    /// The record of an open fiber.
    fn fiber_to_record(&self, f: &OpenFiber) -> (r: FiberRecord)
        requires
            f.wf(),
        ensures
            record_of(r, f@, self.version()),
    {
        let n = f.attributes.entries.len();
        let mut attrs: Vec<(String, AttributeValue)> = Vec::new();
        let mut i: usize = 0;
        while i < n
            invariant
                n == f.attributes.entries@.len(),
                i <= n,
                attrs@.len() == i,
                forall|q: int| 0 <= q < i ==> #[trigger] attrs@[q].0@ == f.attributes.entries@[q].0@
                    && attrs@[q].1@ == f.attributes.entries@[q].1@,
            decreases n - i,
        {
            let e = &f.attributes.entries[i];
            attrs.push((e.0.clone(), e.1.clone()));
            i += 1;
        }
        proof {
            crate::assoc::lemma_same_views(f.attributes.entries@, attrs@);
        }
        FiberRecord {
            fiber_id: f.fiber_id,
            fiber_type: f.fiber_type.clone(),
            config_version: self.config_version,
            attributes: attrs,
            first_activity: f.first_activity,
            last_activity: f.last_activity,
            closed: false,
        }
    }

    /// What the first pattern of the log's source that matches its text
    /// extracts; `None` when the source has no patterns or none matches.
    pub fn extract_attributes(&self, log: &LogRecord) -> (r: Option<PatternMatch>)
        requires
            self.wf(),
        ensures
            !self.ft().source_patterns.map().dom().contains(log.source_id@) ==> r is None,
            self.ft().source_patterns.map().dom().contains(log.source_id@) ==> {
                let pats = self.ft().source_patterns.map()[log.source_id@];
                match match_from(pats, log.raw_text@, 0) {
                    None => r is None,
                    Some(p) => r matches Some(m) && match_of(m, pats[p], log.raw_text@),
                }
            },
    {
        let pats = match self.fiber_type.source_patterns.get(&log.source_id) {
            Some(p) => p,
            None => {
                return None;
            },
        };
        let ghost pv = pats@;
        let mut i: usize = 0;
        while i < pats.len()
            invariant
                i <= pv.len(),
                pv == pats@,
                match_from(pv, log.raw_text@, 0) == match_from(pv, log.raw_text@, i as int),
                self.fiber_type.source_patterns.map().dom().contains(log.source_id@),
                self.fiber_type.source_patterns.map()[log.source_id@] == pv,
            decreases pv.len() - i,
        {
            let p = &pats[i];
            match p.regex.captures(log.raw_text.as_str()) {
                Some(caps) => {
                    let names = p.regex.group_names();
                    let ghost gn = opt_views(names@);
                    let ghost cv = opt_views(caps@);
                    let mut extracted: AssocMap<String, String> = AssocMap::new();
                    let mut k: usize = 0;
                    while k < names.len()
                        invariant
                            k <= names@.len(),
                            names@.len() == caps@.len(),
                            gn == opt_views(names@),
                            cv == opt_views(caps@),
                            extracted.wf(),
                            extracted.map() == captured_map(gn.take(k as int), cv.take(k as int)),
                            i < pv.len(),
                            pv == pats@,
                            *p == pv[i as int],
                            match_from(pv, log.raw_text@, 0) == Some(i as int),
                            self.fiber_type.source_patterns.map().dom().contains(log.source_id@),
                            self.fiber_type.source_patterns.map()[log.source_id@] == pv,
                            gn == regex_group_names(p.regex.pattern()),
                            regex_captures(p.regex.pattern(), log.raw_text@) == Some(cv),
                        decreases names@.len() - k,
                    {
                        assert(gn.take(k as int + 1).drop_last() =~= gn.take(k as int));
                        assert(cv.take(k as int + 1).drop_last() =~= cv.take(k as int));
                        match (&names[k], &caps[k]) {
                            (Some(n), Some(t)) => {
                                extracted.insert(n.clone(), t.clone());
                            },
                            _ => {},
                        }
                        k += 1;
                    }
                    assert(gn.take(names@.len() as int) =~= gn);
                    assert(cv.take(names@.len() as int) =~= cv);
                    return Some(PatternMatch {
                        extracted,
                        release_matching_peer_keys: clone_strings(&p.release_matching_peer_keys),
                        release_self_keys: clone_strings(&p.release_self_keys),
                        close: p.close,
                    });
                },
                None => {},
            }
            i += 1;
        }
        None
    }

    /// Computes the derived attributes in evaluation order; a derived
    /// attribute whose dependencies are not all known is left out.
    fn compute_derived_attributes(&self, attrs: &mut AssocMap<String, String>)
        requires
            self.wf(),
            old(attrs).wf(),
        ensures
            final(attrs).wf(),
            final(attrs).map() == derive_all(string_views(self.ft().derived_order@), self.ft().derived_templates.map(), old(attrs).map()),
    {
        let ghost order = string_views(self.fiber_type.derived_order@);
        let ghost t = self.fiber_type.derived_templates.map();
        let ghost a0 = attrs.map();
        let n = self.fiber_type.derived_order.len();
        let mut i: usize = 0;
        while i < n
            invariant
                n == order.len(),
                order == string_views(self.fiber_type.derived_order@),
                t == self.fiber_type.derived_templates.map(),
                self.fiber_type.derived_templates.wf(),
                i <= n,
                attrs.wf(),
                attrs.map() == derive_all(order.take(i as int), t, a0),
            decreases n - i,
        {
            assert(order.take(i as int + 1).drop_last() =~= order.take(i as int));
            let name = &self.fiber_type.derived_order[i];
            assert(order.take(i as int + 1).last() == name@);
            match self.fiber_type.derived_templates.get(name) {
                Some(template) => {
                    match template.interpolate(attrs) {
                        Some(v) => {
                            attrs.insert(name.clone(), v);
                        },
                        None => {},
                    }
                },
                None => {},
            }
            i += 1;
        }
        assert(order.take(n as int) =~= order);
    }
}


/// The ids of a list of records.
pub open spec fn record_ids(r: Seq<FiberRecord>) -> Seq<u128> {
    r.map_values(|x: FiberRecord| x.fiber_id)
}

/// State threaded through the release of peer keys: the open fibers, the
/// index, the ids of the updated records so far, and the fibers whose
/// records were added, as they were when added.
pub type PeerState = (Map<u128, FiberView>, Map<KeyPair, u128>, Seq<u128>, Seq<FiberView>);

/// Releases one key from the peer fiber that holds the extracted value.
pub open spec fn peer_step(st: PeerState, k: Seq<char>, extracted: Map<Seq<char>, Seq<char>>) -> PeerState {
    if extracted.dom().contains(k) && st.1.dom().contains((k, extracted[k])) && st.0.dom().contains(st.1[(k, extracted[k])]) {
        let fid = st.1[(k, extracted[k])];
        let f = FiberView { keys: st.0[fid].keys.remove(k), ..st.0[fid] };
        (
            st.0.insert(fid, f),
            st.1.remove((k, extracted[k])),
            if st.2.contains(fid) { st.2 } else { st.2.push(fid) },
            if st.2.contains(fid) { st.3 } else { st.3.push(f) },
        )
    } else {
        st
    }
}

/// The keys released in turn.
pub open spec fn peer_release(st: PeerState, keys: Seq<Seq<char>>, extracted: Map<Seq<char>, Seq<char>>) -> PeerState
    decreases keys.len(),
{
    if keys.len() == 0 {
        st
    } else {
        peer_step(peer_release(st, keys.drop_last(), extracted), keys.last(), extracted)
    }
}

proof fn lemma_entries_after_reinsert(s0: Seq<(u128, OpenFiber)>, w: int, e: (u128, OpenFiber))
    requires
        forall|i: int| 0 <= i < s0.len() ==> #[trigger] fiber_entry_ok(s0[i]),
        0 <= w < s0.len(),
        fiber_entry_ok(e),
    ensures
        forall|i: int| 0 <= i < s0.remove(w).push(e).len() ==> #[trigger] fiber_entry_ok(s0.remove(w).push(e)[i]),
{
    let s1 = s0.remove(w).push(e);
    assert forall|i: int| 0 <= i < s1.len() implies #[trigger] fiber_entry_ok(s1[i]) by {
        if i < s1.len() - 1 {
            let i2 = if i < w { i } else { i + 1 };
            assert(s1[i] == s0[i2]);
            assert(fiber_entry_ok(s0[i2]));
        }
    }
}

proof fn lemma_keys_after_release(f: Map<u128, FiberView>, idx: Map<KeyPair, u128>, fid: u128, k: Seq<char>, v: Seq<char>)
    requires
        keys_indexed(f, idx),
        f.dom().contains(fid),
        idx.dom().contains((k, v)),
        idx[(k, v)] == fid,
    ensures
        keys_indexed(f.insert(fid, FiberView { keys: f[fid].keys.remove(k), ..f[fid] }), idx.remove((k, v))),
{
    let f1 = f.insert(fid, FiberView { keys: f[fid].keys.remove(k), ..f[fid] });
    let i1 = idx.remove((k, v));
    assert forall|g: u128, kk: Seq<char>| f1.dom().contains(g) && #[trigger] f1[g].keys.dom().contains(kk)
        implies i1.dom().contains((kk, f1[g].keys[kk])) && i1[(kk, f1[g].keys[kk])] == g by {
        assert(f[g].keys.dom().contains(kk) && f[g].keys[kk] == f1[g].keys[kk]);
        if (kk, f1[g].keys[kk]) == (k, v) {
            assert(idx[(k, v)] == g);
        }
    }
}

impl FiberTypeProcessor {
    /// Whether a record of the fiber is in the list.
    fn listed(records: &Vec<FiberRecord>, fid: u128) -> (b: bool)
        ensures
            b == record_ids(records@).contains(fid),
    {
        let mut i: usize = 0;
        while i < records.len()
            invariant
                i <= records@.len(),
                forall|q: int| 0 <= q < i ==> #[trigger] records@[q].fiber_id != fid,
            decreases records@.len() - i,
        {
            if records[i].fiber_id == fid {
                assert(record_ids(records@)[i as int] == fid);
                return true;
            }
            i += 1;
        }
        proof {
            if record_ids(records@).contains(fid) {
                let q = choose|q: int| 0 <= q < record_ids(records@).len() && #[trigger] record_ids(records@)[q] == fid;
                assert(records@[q].fiber_id == fid);
            }
        }
        false
    }

    /// For each key name, in turn: when the log extracted a value for it and
    /// an open fiber holds that key with that value, the fiber loses the key
    /// and is reported as updated (once).
    fn release_matching_peer_keys(&mut self, key_names: &Vec<String>, extracted: &AssocMap<String, String>, result: &mut ProcessResult)
        requires
            old(self).wf(),
            extracted.wf(),
        ensures
            final(self).wf(),
            final(self).ft() == old(self).ft(),
            final(self).version() == old(self).version(),
            final(self).clock() == old(self).clock(),
            ({
                let st = peer_release(
                    (old(self).fibers(), old(self).index(), record_ids(old(result).updated_fibers@), Seq::empty()),
                    string_views(key_names@),
                    extracted.map(),
                );
                &&& final(self).fibers() == st.0
                &&& final(self).index() == st.1
                &&& final(result).updated_fibers@.len() == old(result).updated_fibers@.len() + st.3.len()
                &&& final(result).updated_fibers@.take(old(result).updated_fibers@.len() as int) == old(result).updated_fibers@
                &&& forall|i: int| 0 <= i < st.3.len() ==> #[trigger] record_of(final(result).updated_fibers@[old(result).updated_fibers@.len() + i], st.3[i], old(self).version())
            }),
            final(result).memberships@ == old(result).memberships@,
            final(result).new_fibers@ == old(result).new_fibers@,
            final(result).closed_fiber_ids@ == old(result).closed_fiber_ids@,
            final(result).merged_fiber_ids@ == old(result).merged_fiber_ids@,
    {
        let ghost keys = string_views(key_names@);
        let ghost ex = extracted.map();
        let ghost u0 = result.updated_fibers@;
        let ghost st0: PeerState = (self.fibers(), self.index(), record_ids(u0), Seq::empty());
        let mut i: usize = 0;
        while i < key_names.len()
            invariant
                i <= keys.len(),
                keys == string_views(key_names@),
                ex == extracted.map(),
                extracted.wf(),
                self.wf(),
                self.ft() == old(self).ft(),
                self.version() == old(self).version(),
                self.clock() == old(self).clock(),
                ({
                    let st = peer_release(st0, keys.take(i as int), ex);
                    &&& self.fibers() == st.0
                    &&& self.index() == st.1
                    &&& record_ids(result.updated_fibers@) == st.2
                    &&& result.updated_fibers@.len() == u0.len() + st.3.len()
                    &&& result.updated_fibers@.take(u0.len() as int) == u0
                    &&& forall|q: int| 0 <= q < st.3.len() ==> #[trigger] record_of(result.updated_fibers@[u0.len() + q], st.3[q], self.version())
                }),
                result.memberships@ == old(result).memberships@,
                result.new_fibers@ == old(result).new_fibers@,
                result.closed_fiber_ids@ == old(result).closed_fiber_ids@,
                result.merged_fiber_ids@ == old(result).merged_fiber_ids@,
            decreases keys.len() - i,
        {
            let ghost prev = peer_release(st0, keys.take(i as int), ex);
            assert(keys.take(i as int + 1).drop_last() =~= keys.take(i as int));
            let k = &key_names[i];
            assert(keys.take(i as int + 1).last() == k@);
            let ghost u1 = result.updated_fibers@;
            match extracted.get(k) {
                Some(v) => {
                    let pair = (k.clone(), v.clone());
                    match self.key_index.get(&pair) {
                        Some(fidr) => {
                            let fid = *fidr;
                            let ghost s0 = self.open_fibers.seq();
                            let ghost f0 = self.fibers();
                            let ghost i0 = self.index();
                            match self.open_fibers.remove(&fid) {
                                Some(f) => {
                                    let mut f = f;
                                    let ghost w = choose|w: int| 0 <= w < s0.len() && s0[w].0@ == fid && s0[w].1 == f
                                        && self.open_fibers.seq() == s0.remove(w);
                                    assert(fiber_entry_ok(s0[w]));
                                    f.remove_key(k);
                                    self.key_index.remove(&pair);
                                    let already = Self::listed(&result.updated_fibers, fid);
                                    if !already {
                                        let rec = self.fiber_to_record(&f);
                                        result.updated_fibers.push(rec);
                                    }
                                    self.open_fibers.insert(fid, f);
                                    proof {
                                        lemma_to_map_dom(s0.remove(w), fid);
                                        lemma_entries_after_reinsert(s0, w, (fid, f));
                                        lemma_keys_after_release(f0, i0, fid, k@, v@);
                                        assert(self.fibers() =~= f0.insert(fid, FiberView { keys: f0[fid].keys.remove(k@), ..f0[fid] }));
                                        assert(record_ids(result.updated_fibers@) =~= peer_step(prev, k@, ex).2);
                                        assert(result.updated_fibers@.take(u0.len() as int) =~= u0) by {
                                            assert(u1.take(u0.len() as int) == u0);
                                        }
                                        assert forall|q: int| 0 <= q < peer_step(prev, k@, ex).3.len() implies #[trigger] record_of(result.updated_fibers@[u0.len() + q], peer_step(prev, k@, ex).3[q], self.version()) by {
                                            if q < prev.3.len() {
                                                assert(result.updated_fibers@[u0.len() + q] == u1[u0.len() + q]);
                                            }
                                        }
                                    }
                                },
                                None => {},
                            }
                        },
                        None => {},
                    }
                },
                None => {},
            }
            i += 1;
        }
        assert(keys.take(keys.len() as int) =~= keys);
    }
}


/// The fibers the index maps the log's key attributes to.
pub open spec fn matching_set(attrs: Map<Seq<char>, Seq<char>>, keys: Seq<Seq<char>>, index: Map<KeyPair, u128>) -> Set<u128> {
    Set::new(|x: u128| exists|n: Seq<char>| #[trigger] attrs.dom().contains(n) && keys.contains(n)
        && index.dom().contains((n, attrs[n])) && index[(n, attrs[n])] == x)
}

/// The order in which merge candidates are compared: by first activity,
/// a fiber that is not open coming last.
pub open spec fn merge_rank(fibers: Map<u128, FiberView>, id: u128) -> int {
    if fibers.dom().contains(id) { fibers[id].first_activity as int } else { i128::MAX as int }
}

/// `b` merged into `a`: `a` keeps its identity.
pub open spec fn merge_view(a: FiberView, b: FiberView) -> FiberView {
    FiberView {
        fiber_id: a.fiber_id,
        fiber_type: a.fiber_type,
        keys: a.keys.union_prefer_right(b.keys),
        attributes: merged_attributes(a.attributes, b.attributes, b.last_activity > a.last_activity),
        first_activity: if b.first_activity < a.first_activity { b.first_activity } else { a.first_activity },
        last_activity: if b.last_activity > a.last_activity { b.last_activity } else { a.last_activity },
        log_ids: a.log_ids + b.log_ids,
    }
}

/// The fibers of `m` merged, in order, into `acc`.
pub open spec fn merge_fold(acc: FiberView, m: Seq<u128>, fibers: Map<u128, FiberView>) -> FiberView
    decreases m.len(),
{
    if m.len() == 0 {
        acc
    } else {
        merge_view(merge_fold(acc, m.drop_last(), fibers), fibers[m.last()])
    }
}

/// The ids other than the survivor that belong to open fibers, in order.
pub open spec fn open_others(ids: Seq<u128>, survivor: u128, fibers: Map<u128, FiberView>) -> Seq<u128>
    decreases ids.len(),
{
    if ids.len() == 0 {
        Seq::empty()
    } else {
        let r = open_others(ids.drop_last(), survivor, fibers);
        if ids.last() != survivor && fibers.dom().contains(ids.last()) {
            r.push(ids.last())
        } else {
            r
        }
    }
}

/// The index after the fibers of `m` are merged, in order, into the
/// survivor: the survivor takes each merged fiber's keys as a fiber takes
/// a log's key values (`updated_index`), so a value that a merged fiber
/// replaces leaves the index, and the merged fiber's values lead to the
/// survivor.
pub open spec fn merge_index(index: Map<KeyPair, u128>, fibers: Map<u128, FiberView>, m: Seq<u128>, survivor: u128) -> Map<KeyPair, u128>
    decreases m.len(),
{
    if m.len() == 0 {
        index
    } else {
        updated_index(
            merge_index(index, fibers, m.drop_last(), survivor),
            merge_fold(fibers[survivor], m.drop_last(), fibers).keys,
            fibers[m.last()].keys,
            survivor,
        )
    }
}

/// The open fibers after the merge into the survivor.
pub open spec fn after_merge(fibers: Map<u128, FiberView>, m: Seq<u128>, survivor: u128) -> Map<u128, FiberView> {
    if fibers.dom().contains(survivor) {
        without(fibers, m.to_set()).insert(survivor, merge_fold(fibers[survivor], m, fibers))
    } else {
        fibers
    }
}

proof fn lemma_open_others_props(ids: Seq<u128>, survivor: u128, fibers: Map<u128, FiberView>)
    requires
        ids.no_duplicates(),
    ensures
        open_others(ids, survivor, fibers).no_duplicates(),
        forall|x: u128| #[trigger] open_others(ids, survivor, fibers).contains(x) <==> (ids.contains(x) && x != survivor && fibers.dom().contains(x)),
    decreases ids.len(),
{
    if ids.len() > 0 {
        let t = ids.drop_last();
        assert(t.no_duplicates()) by {
            assert forall|a: int, b: int| 0 <= a < t.len() && 0 <= b < t.len() && a != b implies t[a] != t[b] by {
                assert(t[a] == ids[a] && t[b] == ids[b]);
            }
        }
        lemma_open_others_props(t, survivor, fibers);
        let r = open_others(t, survivor, fibers);
        assert(!t.contains(ids.last())) by {
            if t.contains(ids.last()) {
                let q = choose|q: int| 0 <= q < t.len() && #[trigger] t[q] == ids.last();
                assert(ids[q] == ids[ids.len() - 1]);
            }
        }
        assert forall|x: u128| ids.contains(x) <==> (t.contains(x) || x == ids.last()) by {
            if ids.contains(x) {
                let q = choose|q: int| 0 <= q < ids.len() && #[trigger] ids[q] == x;
                if q < ids.len() - 1 {
                    assert(t[q] == x);
                }
            }
            if t.contains(x) {
                let q = choose|q: int| 0 <= q < t.len() && #[trigger] t[q] == x;
                assert(ids[q] == x);
            }
            if x == ids.last() {
                assert(ids[ids.len() - 1] == x);
            }
        }
        if ids.last() != survivor && fibers.dom().contains(ids.last()) {
            let r2 = r.push(ids.last());
            assert(r2.no_duplicates()) by {
                assert forall|a: int, b: int| 0 <= a < r2.len() && 0 <= b < r2.len() && a != b implies r2[a] != r2[b] by {
                    if a < r.len() && b < r.len() {
                        assert(r2[a] == r[a] && r2[b] == r[b]);
                    } else if a < r.len() {
                        assert(r2[a] == r[a]);
                        assert(r.contains(r[a]));
                    } else {
                        assert(r2[b] == r[b]);
                        assert(r.contains(r[b]));
                    }
                }
            }
            assert forall|x: u128| #[trigger] r2.contains(x) <==> r.contains(x) || x == ids.last() by {
                if r2.contains(x) {
                    let q = choose|q: int| 0 <= q < r2.len() && #[trigger] r2[q] == x;
                    if q < r.len() {
                        assert(r[q] == x);
                    }
                }
                if r.contains(x) {
                    let q = choose|q: int| 0 <= q < r.len() && #[trigger] r[q] == x;
                    assert(r2[q] == x);
                }
                if x == ids.last() {
                    assert(r2[r.len() as int] == x);
                }
            }
        }
    }
}

proof fn lemma_keys_after_merge(f: Map<u128, FiberView>, idx: Map<KeyPair, u128>, s: u128, o: u128)
    requires
        keys_indexed(f, idx),
        f.dom().contains(s),
        f.dom().contains(o),
        s != o,
    ensures
        keys_indexed(
            f.remove(o).insert(s, merge_view(f[s], f[o])),
            updated_index(idx, f[s].keys, f[o].keys, s),
        ),
{
    let f1 = f.remove(o).insert(s, merge_view(f[s], f[o]));
    let ka = f[o].keys;
    let i1 = updated_index(idx, f[s].keys, ka, s);
    assert forall|g: u128, k: Seq<char>| f1.dom().contains(g) && #[trigger] f1[g].keys.dom().contains(k)
        implies i1.dom().contains((k, f1[g].keys[k])) && i1[(k, f1[g].keys[k])] == g by {
        let p = (k, f1[g].keys[k]);
        if g == s {
            if ka.dom().contains(k) {
                assert(is_key_pair(ka, p));
            } else {
                assert(f[s].keys.dom().contains(k) && f[s].keys[k] == p.1);
                assert(idx.dom().contains(p) && idx[p] == s);
            }
        } else {
            assert(f[g] == f1[g]);
            assert(f[g].keys.dom().contains(k));
            assert(idx.dom().contains(p) && idx[p] == g);
            if is_key_pair(ka, p) {
                assert(f[o].keys.dom().contains(k));
                assert(idx[(k, f[o].keys[k])] == o);
            }
            if ka.dom().contains(p.0) && is_key_pair(f[s].keys, p) && p.1 != ka[p.0] {
                assert(f[s].keys.dom().contains(k));
                assert(idx[p] == s);
            }
        }
    }
}

impl FiberTypeProcessor {
    /// The open fibers (by the index) that hold one of the log's key values.
    fn find_matching_fibers(&self, attrs: &AssocMap<String, String>) -> (r: Vec<u128>)
        requires
            self.wf(),
            attrs.wf(),
        ensures
            r@.no_duplicates(),
            forall|x: u128| #[trigger] r@.contains(x) <==> matching_set(attrs.map(), string_views(self.ft().key_names@), self.index()).contains(x),
    {
        let ghost keys = string_views(self.fiber_type.key_names@);
        let ghost a = attrs.seq();
        let ghost am = attrs.map();
        let mut found: Vec<u128> = Vec::new();
        let n = attrs.entries.len();
        let mut i: usize = 0;
        while i < n
            invariant
                n == a.len(),
                a == attrs.seq(),
                am == attrs.map(),
                am == to_map(a),
                unique_keys(a),
                i <= n,
                keys == string_views(self.fiber_type.key_names@),
                self.key_index.wf(),
                found@.no_duplicates(),
                forall|x: u128| #[trigger] found@.contains(x) <==> (exists|q: int| 0 <= q < i && keys.contains(a[q].0@)
                    && self.index().dom().contains((a[q].0@, a[q].1@)) && self.index()[(a[q].0@, a[q].1@)] == x),
            decreases n - i,
        {
            let e = &attrs.entries[i];
            let ghost f0 = found@;
            if contains_string(&self.fiber_type.key_names, &e.0) {
                match self.key_index.get(&(e.0.clone(), e.1.clone())) {
                    Some(fid) => {
                        let mut present = false;
                        let mut j: usize = 0;
                        while j < found.len()
                            invariant
                                j <= found@.len(),
                                present == found@.take(j as int).contains(*fid),
                            decreases found@.len() - j,
                        {
                            assert(found@.take(j as int + 1).drop_last() =~= found@.take(j as int));
                            if found[j] == *fid {
                                present = true;
                            }
                            assert(found@.take(j as int + 1).contains(*fid) <==> (found@.take(j as int).contains(*fid) || found@[j as int] == *fid)) by {
                                if found@.take(j as int + 1).contains(*fid) {
                                    let q = choose|q: int| 0 <= q < j + 1 && #[trigger] found@.take(j as int + 1)[q] == *fid;
                                    if q < j { assert(found@.take(j as int)[q] == *fid); }
                                }
                                if found@.take(j as int).contains(*fid) {
                                    let q = choose|q: int| 0 <= q < j && #[trigger] found@.take(j as int)[q] == *fid;
                                    assert(found@.take(j as int + 1)[q] == *fid);
                                }
                                if found@[j as int] == *fid {
                                    assert(found@.take(j as int + 1)[j as int] == *fid);
                                }
                            }
                            j += 1;
                        }
                        assert(found@.take(found@.len() as int) =~= found@);
                        if !present {
                            found.push(*fid);
                            assert(found@[found@.len() - 1] == *fid);
                        }
                        assert(self.index()[(a[i as int].0@, a[i as int].1@)] == *fid);
                        assert(found@.contains(*fid));
                    },
                    None => {},
                }
            }
            proof {
                let hit_i = keys.contains(a[i as int].0@) && self.index().dom().contains((a[i as int].0@, a[i as int].1@));
                assert(e.0@ == a[i as int].0@ && e.1@ == a[i as int].1@);
                assert(hit_i ==> found@.contains(self.index()[(a[i as int].0@, a[i as int].1@)]));
                assert(!hit_i ==> found@ == f0);
                assert(hit_i ==> (found@ == f0 || found@ == f0.push(self.index()[(a[i as int].0@, a[i as int].1@)])));
                assert forall|x: u128| #[trigger] found@.contains(x) <==> (exists|q: int| 0 <= q < i + 1 && keys.contains(a[q].0@)
                    && self.index().dom().contains((a[q].0@, a[q].1@)) && self.index()[(a[q].0@, a[q].1@)] == x) by {
                    if exists|q: int| 0 <= q < i + 1 && keys.contains(a[q].0@)
                        && self.index().dom().contains((a[q].0@, a[q].1@)) && self.index()[(a[q].0@, a[q].1@)] == x {
                        let q = choose|q: int| 0 <= q < i + 1 && keys.contains(a[q].0@)
                            && self.index().dom().contains((a[q].0@, a[q].1@)) && self.index()[(a[q].0@, a[q].1@)] == x;
                        if q < i {
                            assert(f0.contains(x));
                            let w = choose|w: int| 0 <= w < f0.len() && #[trigger] f0[w] == x;
                            assert(found@[w] == x);
                        }
                    }
                    if found@.contains(x) && !f0.contains(x) {
                        assert(found@.len() == f0.len() + 1);
                        let w = choose|w: int| 0 <= w < found@.len() && #[trigger] found@[w] == x;
                        if w < f0.len() {
                            assert(f0[w] == x);
                        }
                    }
                    if f0.contains(x) {
                        let w = choose|w: int| 0 <= w < f0.len() && #[trigger] f0[w] == x;
                        assert(found@[w] == x);
                    }
                }
                if found@.len() == f0.len() + 1 {
                    assert(found@.no_duplicates()) by {
                        assert forall|p: int, q: int| 0 <= p < found@.len() && 0 <= q < found@.len() && p != q implies found@[p] != found@[q] by {
                            if p < f0.len() && q < f0.len() {
                                assert(found@[p] == f0[p] && found@[q] == f0[q]);
                            } else if p < f0.len() {
                                assert(found@[p] == f0[p]);
                                assert(f0.contains(f0[p]));
                            } else {
                                assert(found@[q] == f0[q]);
                                assert(f0.contains(f0[q]));
                            }
                        }
                    }
                }
            }
            i += 1;
        }
        proof {
            assert forall|x: u128| #[trigger] found@.contains(x) <==> matching_set(am, keys, self.index()).contains(x) by {
                if found@.contains(x) {
                    let q = choose|q: int| 0 <= q < n && keys.contains(a[q].0@)
                        && self.index().dom().contains((a[q].0@, a[q].1@)) && self.index()[(a[q].0@, a[q].1@)] == x;
                    crate::assoc::lemma_to_map_value(a, q);
                    assert(am.dom().contains(a[q].0@));
                }
                if matching_set(am, keys, self.index()).contains(x) {
                    let nm = choose|nm: Seq<char>| #[trigger] am.dom().contains(nm) && keys.contains(nm)
                        && self.index().dom().contains((nm, am[nm])) && self.index()[(nm, am[nm])] == x;
                    lemma_to_map_dom(a, nm);
                    let q = choose|q: int| 0 <= q < a.len() && #[trigger] a[q].0@ == nm;
                    crate::assoc::lemma_to_map_value(a, q);
                }
            }
        }
        found
    }
}


impl FiberTypeProcessor {
    /// Merges the fibers into the one with the earliest first activity (the
    /// first such in the list; a fiber that is not open ranks last), which
    /// survives; returns its id. The others that are open are merged into it
    /// in list order and reported as merged; the survivor takes each merged
    /// fiber's keys in the index (see `merge_index`).
    fn merge_fibers(&mut self, ids: &Vec<u128>, result: &mut ProcessResult) -> (survivor: u128)
        requires
            old(self).wf(),
            ids@.len() >= 1,
            ids@.no_duplicates(),
        ensures
            final(self).wf(),
            final(self).ft() == old(self).ft(),
            final(self).version() == old(self).version(),
            final(self).clock() == old(self).clock(),
            ids@.contains(survivor),
            forall|j: int| 0 <= j < ids@.len() ==> merge_rank(old(self).fibers(), #[trigger] ids@[j]) >= merge_rank(old(self).fibers(), survivor),
            final(result).merged_fiber_ids@ == old(result).merged_fiber_ids@ + open_others(ids@, survivor, old(self).fibers()),
            final(self).fibers() == after_merge(old(self).fibers(), open_others(ids@, survivor, old(self).fibers()), survivor),
            final(self).index() == merge_index(old(self).index(), old(self).fibers(), open_others(ids@, survivor, old(self).fibers()), survivor),
            final(result).memberships@ == old(result).memberships@,
            final(result).new_fibers@ == old(result).new_fibers@,
            final(result).updated_fibers@ == old(result).updated_fibers@,
            final(result).closed_fiber_ids@ == old(result).closed_fiber_ids@,
    {
        let ghost f0 = self.fibers();
        let ghost i0 = self.index();
        // choose the survivor
        let mut best: u128 = ids[0];
        let mut best_rank: i128 = match self.open_fibers.get(&ids[0]) {
            Some(f) => f.first_activity,
            None => i128::MAX,
        };
        let mut j: usize = 1;
        assert(ids@.take(1)[0] == ids@[0]);
        while j < ids.len()
            invariant
                1 <= j <= ids@.len(),
                f0 == self.fibers(),
                self.open_fibers.wf(),
                ids@.take(j as int).contains(best),
                best_rank == merge_rank(f0, best),
                forall|q: int| 0 <= q < j ==> merge_rank(f0, #[trigger] ids@[q]) >= best_rank,
            decreases ids@.len() - j,
        {
            let r: i128 = match self.open_fibers.get(&ids[j]) {
                Some(f) => f.first_activity,
                None => i128::MAX,
            };
            let ghost tb = ids@.take(j as int);
            if r < best_rank {
                best = ids[j];
                best_rank = r;
                assert(ids@.take(j as int + 1)[j as int] == best);
            } else {
                proof {
                    let w = choose|w: int| 0 <= w < j && #[trigger] tb[w] == best;
                    assert(ids@.take(j as int + 1)[w] == best);
                }
            }
            j += 1;
        }
        let survivor = best;
        assert(ids@.take(ids@.len() as int) =~= ids@);
        proof {
            lemma_open_others_props(ids@, survivor, f0);
        }
        // merge the others in order
        let ghost m_all = open_others(ids@, survivor, f0);
        let ghost mg0 = result.merged_fiber_ids@;
        proof {
            // an open fiber ranks before any that is not open, so a survivor
            // that is not open leaves nothing to merge
            if !f0.dom().contains(survivor) {
                assert forall|x: u128| !m_all.contains(x) by {
                    if m_all.contains(x) {
                        let q = choose|q: int| 0 <= q < ids@.len() && ids@[q] == x;
                        lemma_to_map_dom(self.open_fibers.seq(), x);
                        let e2 = choose|e2: int| 0 <= e2 < self.open_fibers.seq().len() && #[trigger] self.open_fibers.seq()[e2].0@ == x;
                        assert(fiber_entry_ok(self.open_fibers.seq()[e2]));
                        crate::assoc::lemma_to_map_value(self.open_fibers.seq(), e2);
                        assert(merge_rank(f0, ids@[q]) >= merge_rank(f0, survivor));
                    }
                }
            }
        }
        assert(after_merge(f0, open_others(ids@.take(0), survivor, f0), survivor) =~= f0) by {
            if f0.dom().contains(survivor) {
                assert(merge_fold(f0[survivor], Seq::<u128>::empty(), f0) == f0[survivor]);
            }
        }
        assert(open_others(ids@.take(0), survivor, f0) =~= Seq::<u128>::empty());
        let mut k: usize = 0;
        while k < ids.len()
            invariant
                k <= ids@.len(),
                ids@.no_duplicates(),
                ids@.contains(survivor),
                m_all == open_others(ids@, survivor, f0),
                !f0.dom().contains(survivor) ==> forall|x: u128| !m_all.contains(x),
                self.wf(),
                self.ft() == old(self).ft(),
                self.version() == old(self).version(),
                self.clock() == old(self).clock(),
                self.fibers() == after_merge(f0, open_others(ids@.take(k as int), survivor, f0), survivor),
                self.index() == merge_index(i0, f0, open_others(ids@.take(k as int), survivor, f0), survivor),
                result.merged_fiber_ids@ == mg0 + open_others(ids@.take(k as int), survivor, f0),
                result.memberships@ == old(result).memberships@,
                result.new_fibers@ == old(result).new_fibers@,
                result.updated_fibers@ == old(result).updated_fibers@,
                result.closed_fiber_ids@ == old(result).closed_fiber_ids@,
            decreases ids@.len() - k,
        {
            let id = ids[k];
            let ghost tk = ids@.take(k as int);
            let ghost tk1 = ids@.take(k as int + 1);
            assert(tk1.drop_last() =~= tk);
            let ghost mk = open_others(tk, survivor, f0);
            proof {
                let t = tk;
                assert(t.no_duplicates()) by {
                    assert forall|a: int, b: int| 0 <= a < t.len() && 0 <= b < t.len() && a != b implies t[a] != t[b] by {
                        assert(t[a] == ids@[a] && t[b] == ids@[b]);
                    }
                }
                lemma_open_others_props(t, survivor, f0);
                assert(!t.contains(id)) by {
                    if t.contains(id) {
                        let q = choose|q: int| 0 <= q < t.len() && #[trigger] t[q] == id;
                        assert(ids@[q] == ids@[k as int]);
                    }
                }
            }
            let ghost fb = self.fibers();
            let ghost ib = self.index();
            if id != survivor {
                let ghost s0 = self.open_fibers.seq();
                match self.open_fibers.remove(&id) {
                    Some(other) => {
                        let ghost w = choose|w: int| 0 <= w < s0.len() && s0[w].0@ == id && s0[w].1 == other
                            && self.open_fibers.seq() == s0.remove(w);
                        assert(fiber_entry_ok(s0[w]));
                        assert(f0.dom().contains(id)) by {
                            if !f0.dom().contains(id) {
                                assert(fb.dom().contains(id));
                            }
                        }
                        assert(!mk.to_set().contains(id));
                        assert(id != survivor);
                        assert(without(f0, mk.to_set()).dom().contains(id));
                        assert(without(f0, mk.to_set())[id] == f0[id]);
                        assert(fb == after_merge(f0, mk, survivor));
                        assert(fb[id] == f0[id]);
                        assert(m_all.contains(id)) by {
                            lemma_open_others_props(ids@, survivor, f0);
                            assert(ids@[k as int] == id);
                        }
                        assert(f0.dom().contains(survivor));
                        assert(fb.dom().contains(survivor));
                        let ghost ks = other.keys.seq();
                        assert(other.wf());
                        assert(other@ == fb[id]) by {
                            crate::assoc::lemma_to_map_value(s0, w);
                        }
                        let ghost s1 = self.open_fibers.seq();
                        let ghost fm = self.fibers();
                        assert(fm == fb.remove(id));
                        match self.open_fibers.remove(&survivor) {
                            Some(sv) => {
                                let mut sv = sv;
                                let ghost w2 = choose|w2: int| 0 <= w2 < s1.len() && s1[w2].0@ == survivor && s1[w2].1 == sv
                                    && self.open_fibers.seq() == s1.remove(w2);
                                assert(forall|i: int| 0 <= i < s1.len() ==> #[trigger] fiber_entry_ok(s1[i])) by {
                                    assert forall|i: int| 0 <= i < s1.len() implies #[trigger] fiber_entry_ok(s1[i]) by {
                                        let i2 = if i < w { i } else { i + 1 };
                                        assert(s1[i] == s0[i2]);
                                        assert(fiber_entry_ok(s0[i2]));
                                    }
                                }
                                assert(fiber_entry_ok(s1[w2]));
                                assert(sv@ == fb[survivor]) by {
                                    crate::assoc::lemma_to_map_value(s1, w2);
                                }
                                let ghost svk = sv@.keys;
                                // the survivor takes the other fiber's keys in the index
                                let nk = other.keys.entries.len();
                                let mut q: usize = 0;
                                let ghost of1 = self.open_fibers;
                                assert(to_map(ks.take(0)) =~= Map::<Seq<char>, Seq<char>>::empty());
                                assert(updated_index(ib, svk, to_map(ks.take(0)), survivor) =~= ib);
                                while q < nk
                                    invariant
                                        nk == ks.len(),
                                        ks == other.keys.seq(),
                                        unique_keys(ks),
                                        q <= nk,
                                        self.open_fibers == of1,
                                        self.fiber_type == old(self).fiber_type,
                                        self.config_version == old(self).config_version,
                                        self.logical_clock == old(self).logical_clock,
                                        self.key_index.wf(),
                                        sv.wf(),
                                        sv@.keys == svk,
                                        self.index() == updated_index(ib, svk, to_map(ks.take(q as int)), survivor),
                                    decreases nk - q,
                                {
                                    let e = &other.keys.entries[q];
                                    let ghost ti = ks.take(q as int);
                                    let ghost ti1 = ks.take(q as int + 1);
                                    assert(ti1.drop_last() =~= ti);
                                    assert(ti1.last() == ks[q as int]);
                                    let ghost mi = to_map(ti);
                                    let ghost mi1 = to_map(ti1);
                                    assert(mi1 == mi.insert(e.0@, e.1@));
                                    proof {
                                        lemma_to_map_dom(ti, e.0@);
                                        if has_key(ti, e.0@) {
                                            let qq = choose|qq: int| 0 <= qq < ti.len() && #[trigger] ti[qq].0@ == e.0@;
                                            assert(ti[qq] == ks[qq]);
                                            crate::assoc::lemma_unique_at(ks, qq, q as int);
                                        }
                                    }
                                    assert(!mi.dom().contains(e.0@));
                                    match sv.keys.get(&e.0) {
                                        Some(o) => {
                                            if *o != e.1 {
                                                self.key_index.remove(&(e.0.clone(), o.clone()));
                                            }
                                        },
                                        None => {},
                                    }
                                    self.key_index.insert((e.0.clone(), e.1.clone()), survivor);
                                    proof {
                                        assert(self.index() =~= updated_index(ib, svk, mi1, survivor)) by {
                                            assert forall|p: KeyPair| #[trigger] self.index().dom().contains(p)
                                                <==> updated_index(ib, svk, mi1, survivor).dom().contains(p) by {
                                                if is_key_pair(mi, p) {
                                                    assert(p.0 != e.0@);
                                                }
                                            }
                                        }
                                    }
                                    q += 1;
                                }
                                assert(ks.take(nk as int) =~= ks);
                                assert(to_map(ks) == other@.keys);
                                sv.merge(other);
                                self.open_fibers.insert(survivor, sv);
                                proof {
                                    lemma_to_map_dom(s1.remove(w2), survivor);
                                    lemma_entries_after_reinsert(s1, w2, (survivor, sv));
                                }
                            },
                            None => {},
                        }
                        result.merged_fiber_ids.push(id);
                        proof {
                            let mk1 = open_others(tk1, survivor, f0);
                            assert(mk1 == mk.push(id));
                            assert(fb.dom().contains(survivor));
                            assert(fb[survivor] == merge_fold(f0[survivor], mk, f0));
                            assert(self.fibers() =~= fb.remove(id).insert(survivor, merge_view(fb[survivor], fb[id])));
                            assert(merge_fold(f0[survivor], mk1, f0) == merge_view(merge_fold(f0[survivor], mk, f0), f0[id])) by {
                                assert(mk1.drop_last() =~= mk);
                            }
                            assert(self.fibers() =~= after_merge(f0, mk1, survivor)) by {
                                assert forall|x: u128| mk1.to_set().contains(x) <==> (mk.to_set().contains(x) || x == id) by {
                                    if mk1.to_set().contains(x) {
                                        let qq = choose|qq: int| 0 <= qq < mk1.len() && #[trigger] mk1[qq] == x;
                                        if qq < mk.len() { assert(mk[qq] == x); }
                                    }
                                    if mk.to_set().contains(x) {
                                        let qq = choose|qq: int| 0 <= qq < mk.len() && #[trigger] mk[qq] == x;
                                        assert(mk1[qq] == x);
                                    }
                                    if x == id { assert(mk1[mk.len() as int] == x); }
                                }
                                assert(!mk.contains(survivor));
                            }
                            lemma_keys_after_merge(fb, ib, survivor, id);
                            assert(self.index() == updated_index(ib, fb[survivor].keys, fb[id].keys, survivor));
                            assert(mk1.drop_last() =~= mk);
                            assert(mk1.last() == id);
                            assert(self.index() == merge_index(i0, f0, mk1, survivor));
                            assert(result.merged_fiber_ids@ =~= mg0 + mk1);
                        }
                    },
                    None => {
                        proof {
                            assert(!fb.dom().contains(id));
                            assert(!f0.dom().contains(id)) by {
                                if f0.dom().contains(id) {
                                    assert(!mk.contains(id));
                                }
                            }
                            assert(open_others(tk1, survivor, f0) == mk);
                        }
                    },
                }
            } else {
                assert(open_others(tk1, survivor, f0) == mk);
            }
            k += 1;
        }
        assert(ids@.take(ids@.len() as int) =~= ids@);
        survivor
    }
}


/// The attributes whose names are key names.
pub open spec fn key_attrs(a: Map<Seq<char>, Seq<char>>, keys: Seq<Seq<char>>) -> Map<Seq<char>, Seq<char>> {
    a.restrict(Set::new(|n: Seq<char>| keys.contains(n)))
}

/// A captured text read under the attribute's type, if it has one.
pub open spec fn typed_value(s: Seq<char>, t: Option<AttributeType>) -> Option<AttrView> {
    match t {
        Some(t) => spec_attribute_from_str(s, t),
        None => None,
    }
}

/// The attributes that have a type and whose text reads under it.
pub open spec fn typed_attrs(a: Map<Seq<char>, Seq<char>>, defs: Seq<AttributeDef>) -> Map<Seq<char>, AttrView> {
    Map::new(
        |n: Seq<char>| a.dom().contains(n) && typed_value(a[n], attr_type_of(defs, n, 0)) is Some,
        |n: Seq<char>| typed_value(a[n], attr_type_of(defs, n, 0))->0,
    )
}

/// The fiber after the log joined it with the attributes.
pub open spec fn joined(f: FiberView, log_id: u128, ts: Timestamp, a: Map<Seq<char>, Seq<char>>, keys: Seq<Seq<char>>, defs: Seq<AttributeDef>) -> FiberView {
    FiberView {
        log_ids: f.log_ids.push(log_id),
        last_activity: ts,
        attributes: f.attributes.union_prefer_right(typed_attrs(a, defs)),
        keys: f.keys.union_prefer_right(key_attrs(a, keys)),
        ..f
    }
}

/// The index after the fiber took the key values `ka`: a value that
/// changed leaves the index, and each new value points to the fiber.
pub open spec fn updated_index(idx: Map<KeyPair, u128>, fk: Map<Seq<char>, Seq<char>>, ka: Map<Seq<char>, Seq<char>>, fid: u128) -> Map<KeyPair, u128> {
    Map::new(
        |p: KeyPair| (idx.dom().contains(p) && !(ka.dom().contains(p.0) && is_key_pair(fk, p) && p.1 != ka[p.0])) || is_key_pair(ka, p),
        |p: KeyPair| if is_key_pair(ka, p) { fid } else { idx[p] },
    )
}

/// No open fiber but `fid` holds one of the key values.
pub open spec fn no_other_holder(fibers: Map<u128, FiberView>, fid: u128, ka: Map<Seq<char>, Seq<char>>) -> bool {
    forall|g: u128, n: Seq<char>| #![trigger fibers.dom().contains(g), ka.dom().contains(n)]
        fibers.dom().contains(g) && g != fid && ka.dom().contains(n) ==> !is_key_pair(fibers[g].keys, (n, ka[n]))
}

impl FiberTypeProcessor {
    /// The log joins the fiber: its typed attributes are set, its key
    /// attributes become keys of the fiber and are indexed.
    fn update_fiber_with_attributes(&mut self, fid: u128, log: &LogRecord, attrs: &AssocMap<String, String>)
        requires
            old(self).wf(),
            attrs.wf(),
            valid_timestamp(log.timestamp),
            no_other_holder(old(self).fibers(), fid, key_attrs(attrs.map(), string_views(old(self).ft().key_names@))),
        ensures
            final(self).wf(),
            final(self).ft() == old(self).ft(),
            final(self).version() == old(self).version(),
            final(self).clock() == old(self).clock(),
            old(self).fibers().dom().contains(fid) ==> {
                let ka = key_attrs(attrs.map(), string_views(old(self).ft().key_names@));
                &&& final(self).fibers() == old(self).fibers().insert(fid, joined(old(self).fibers()[fid], log.id, log.timestamp,
                    attrs.map(), string_views(old(self).ft().key_names@), old(self).ft().attributes@))
                &&& final(self).index() == updated_index(old(self).index(), old(self).fibers()[fid].keys, ka, fid)
            },
            !old(self).fibers().dom().contains(fid) ==> final(self).fibers() == old(self).fibers() && final(self).index() == old(self).index(),
    {
        let ghost keys = string_views(self.fiber_type.key_names@);
        let ghost defs = self.fiber_type.attributes@;
        let ghost a = attrs.seq();
        let ghost am = attrs.map();
        let ghost f0 = self.fibers();
        let ghost i0 = self.index();
        let ghost s0 = self.open_fibers.seq();
        match self.open_fibers.remove(&fid) {
            Some(f) => {
                let mut f = f;
                let ghost w = choose|w: int| 0 <= w < s0.len() && s0[w].0@ == fid && s0[w].1 == f
                    && self.open_fibers.seq() == s0.remove(w);
                assert(fiber_entry_ok(s0[w]));
                let ghost fv = f@;
                let ghost fk = fv.keys;
                f.add_log(log.id, log.timestamp);
                let ghost of1 = self.open_fibers;
                let n = attrs.entries.len();
                let mut i: usize = 0;
                assert(typed_attrs(to_map(a.take(0)), defs) =~= Map::<Seq<char>, AttrView>::empty());
                assert(key_attrs(to_map(a.take(0)), keys) =~= Map::<Seq<char>, Seq<char>>::empty());
                assert(f@.attributes =~= fv.attributes.union_prefer_right(typed_attrs(to_map(a.take(0)), defs)));
                assert(f@.keys =~= fk.union_prefer_right(key_attrs(to_map(a.take(0)), keys)));
                assert(updated_index(i0, fk, key_attrs(to_map(a.take(0)), keys), fid) =~= i0);
                while i < n
                    invariant
                        n == a.len(),
                        a == attrs.seq(),
                        am == attrs.map(),
                        am == to_map(a),
                        unique_keys(a),
                        i <= n,
                        keys == string_views(self.fiber_type.key_names@),
                        defs == self.fiber_type.attributes@,
                        self.open_fibers == of1,
                        self.fiber_type == old(self).fiber_type,
                        self.config_version == old(self).config_version,
                        self.logical_clock == old(self).logical_clock,
                        self.key_index.wf(),
                        f.wf(),
                        f.fiber_id == fv.fiber_id,
                        f@ == (FiberView {
                            log_ids: fv.log_ids.push(log.id),
                            last_activity: log.timestamp,
                            attributes: fv.attributes.union_prefer_right(typed_attrs(to_map(a.take(i as int)), defs)),
                            keys: fk.union_prefer_right(key_attrs(to_map(a.take(i as int)), keys)),
                            ..fv
                        }),
                        self.index() == updated_index(i0, fk, key_attrs(to_map(a.take(i as int)), keys), fid),
                        keys_indexed(f0, i0),
                        f0.dom().contains(fid),
                        f0[fid] == fv,
                        fk == fv.keys,
                    decreases n - i,
                {
                    let e = &attrs.entries[i];
                    let ghost ti = a.take(i as int);
                    let ghost ti1 = a.take(i as int + 1);
                    assert(ti1.drop_last() =~= ti);
                    assert(ti1.last() == a[i as int]);
                    let ghost mi = to_map(ti);
                    let ghost mi1 = to_map(ti1);
                    assert(mi1 == mi.insert(e.0@, e.1@));
                    proof {
                        lemma_to_map_dom(ti, e.0@);
                        if has_key(ti, e.0@) {
                            let q = choose|q: int| 0 <= q < ti.len() && #[trigger] ti[q].0@ == e.0@;
                            assert(ti[q] == a[q]);
                            crate::assoc::lemma_unique_at(a, q, i as int);
                        }
                    }
                    assert(!mi.dom().contains(e.0@));
                    let ghost before_keys = f@.keys;
                    let ghost ib = self.index();
                    match self.fiber_type.get_attribute_type(e.0.as_str()) {
                        Some(t) => {
                            match AttributeValue::from_str(e.1.as_str(), t) {
                                Some(tv) => {
                                    f.set_attribute(e.0.clone(), tv);
                                },
                                None => {},
                            }
                        },
                        None => {},
                    }
                    assert(f@.attributes =~= fv.attributes.union_prefer_right(typed_attrs(mi1, defs)));
                    if contains_string(&self.fiber_type.key_names, &e.0) {
                        let old_value: Option<String> = match f.keys.get(&e.0) {
                            Some(o) => Some(o.clone()),
                            None => None,
                        };
                        assert(key_attrs(mi, keys).dom().contains(e.0@) == false);
                        match old_value {
                            Some(o) => {
                                assert(fk.dom().contains(e.0@) && fk[e.0@] == o@);
                                if o != e.1 {
                                    self.key_index.remove(&(e.0.clone(), o));
                                    self.key_index.insert((e.0.clone(), e.1.clone()), fid);
                                } else {
                                    assert(i0.dom().contains((e.0@, o@)) && i0[(e.0@, o@)] == fid) by {
                                        assert(f0[fid].keys.dom().contains(e.0@));
                                    }
                                }
                            },
                            None => {
                                assert(!fk.dom().contains(e.0@));
                                self.key_index.insert((e.0.clone(), e.1.clone()), fid);
                            },
                        }
                        f.set_key(e.0.clone(), e.1.clone());
                        proof {
                            let kb = key_attrs(mi, keys);
                            let kb1 = key_attrs(mi1, keys);
                            assert(kb1 =~= kb.insert(e.0@, e.1@));
                            assert(f@.keys =~= fk.union_prefer_right(kb1));
                            assert(self.index() =~= updated_index(i0, fk, kb1, fid)) by {
                                assert forall|p: KeyPair| #[trigger] self.index().dom().contains(p) <==> updated_index(i0, fk, kb1, fid).dom().contains(p) by {
                                    if is_key_pair(kb, p) {
                                        assert(p.0 != e.0@);
                                    }
                                }
                            }
                        }
                    } else {
                        proof {
                            assert(key_attrs(mi1, keys) =~= key_attrs(mi, keys));
                        }
                    }
                    i += 1;
                }
                assert(a.take(n as int) =~= a);
                let ghost fnew = f@;
                self.open_fibers.insert(fid, f);
                proof {
                    let ka = key_attrs(am, keys);
                    lemma_to_map_dom(s0.remove(w), fid);
                    lemma_entries_after_reinsert(s0, w, (fid, f));
                    assert(self.fibers() =~= f0.insert(fid, joined(fv, log.id, log.timestamp, am, keys, defs)));
                    let f1 = self.fibers();
                    let i1 = self.index();
                    assert forall|g: u128, k: Seq<char>| f1.dom().contains(g) && #[trigger] f1[g].keys.dom().contains(k)
                        implies i1.dom().contains((k, f1[g].keys[k])) && i1[(k, f1[g].keys[k])] == g by {
                        let p = (k, f1[g].keys[k]);
                        if g == fid {
                            if ka.dom().contains(k) {
                                assert(is_key_pair(ka, p));
                            } else {
                                assert(fk.dom().contains(k) && fk[k] == p.1);
                                assert(f0[fid].keys.dom().contains(k));
                                assert(i0.dom().contains(p) && i0[p] == fid);
                            }
                        } else {
                            assert(f0.dom().contains(g) && f0[g] == f1[g]);
                            assert(f0[g].keys.dom().contains(k));
                            assert(i0.dom().contains(p) && i0[p] == g);
                            if is_key_pair(ka, p) {
                                assert(ka.dom().contains(k));
                                assert(!is_key_pair(f0[g].keys, (k, ka[k])));
                            }
                            if ka.dom().contains(p.0) && is_key_pair(fk, p) && p.1 != ka[p.0] {
                                assert(f0[fid].keys.dom().contains(k));
                                assert(i0[p] == fid);
                            }
                        }
                    }
                }
            },
            None => {},
        }
    }

    /// The fiber, if open, loses the listed keys, which leave the index.
    fn release_self_keys(&mut self, key_names: &Vec<String>, fid: u128)
        requires
            old(self).wf(),
        ensures
            final(self).wf(),
            final(self).ft() == old(self).ft(),
            final(self).version() == old(self).version(),
            final(self).clock() == old(self).clock(),
            old(self).fibers().dom().contains(fid) ==> {
                let fk = old(self).fibers()[fid].keys;
                let gone = Set::new(|n: Seq<char>| string_views(key_names@).contains(n));
                &&& final(self).fibers() == old(self).fibers().insert(fid, FiberView { keys: fk.remove_keys(gone), ..old(self).fibers()[fid] })
                &&& final(self).index() == old(self).index().remove_keys(Set::new(|p: KeyPair| gone.contains(p.0) && is_key_pair(fk, p)))
            },
            !old(self).fibers().dom().contains(fid) ==> final(self).fibers() == old(self).fibers() && final(self).index() == old(self).index(),
    {
        let ghost names = string_views(key_names@);
        let ghost f0 = self.fibers();
        let ghost i0 = self.index();
        let ghost s0 = self.open_fibers.seq();
        match self.open_fibers.remove(&fid) {
            Some(f) => {
                let mut f = f;
                let ghost w = choose|w: int| 0 <= w < s0.len() && s0[w].0@ == fid && s0[w].1 == f
                    && self.open_fibers.seq() == s0.remove(w);
                assert(fiber_entry_ok(s0[w]));
                let ghost fv = f@;
                let ghost fk = fv.keys;
                let ghost of1 = self.open_fibers;
                let mut i: usize = 0;
                assert(fk.remove_keys(Set::new(|n: Seq<char>| names.take(0).contains(n))) =~= fk);
                assert(i0.remove_keys(Set::new(|p: KeyPair| names.take(0).contains(p.0) && is_key_pair(fk, p))) =~= i0);
                while i < key_names.len()
                    invariant
                        i <= names.len(),
                        names == string_views(key_names@),
                        self.open_fibers == of1,
                        self.fiber_type == old(self).fiber_type,
                        self.config_version == old(self).config_version,
                        self.logical_clock == old(self).logical_clock,
                        self.key_index.wf(),
                        f.wf(),
                        f.fiber_id == fv.fiber_id,
                        f@ == (FiberView { keys: fk.remove_keys(Set::new(|n: Seq<char>| names.take(i as int).contains(n))), ..fv }),
                        self.index() == i0.remove_keys(Set::new(|p: KeyPair| names.take(i as int).contains(p.0) && is_key_pair(fk, p))),
                    decreases names.len() - i,
                {
                    let k = &key_names[i];
                    let ghost g0 = Set::new(|n: Seq<char>| names.take(i as int).contains(n));
                    let ghost g1 = Set::new(|n: Seq<char>| names.take(i as int + 1).contains(n));
                    assert(g1 =~= g0.insert(k@)) by {
                        assert forall|x: Seq<char>| g1.contains(x) <==> g0.contains(x) || x == k@ by {
                            if names.take(i as int + 1).contains(x) {
                                let q = choose|q: int| 0 <= q < i + 1 && #[trigger] names.take(i as int + 1)[q] == x;
                                if q < i { assert(names.take(i as int)[q] == x); }
                            }
                            if names.take(i as int).contains(x) {
                                let q = choose|q: int| 0 <= q < i && #[trigger] names.take(i as int)[q] == x;
                                assert(names.take(i as int + 1)[q] == x);
                            }
                            if x == k@ {
                                assert(names.take(i as int + 1)[i as int] == x);
                            }
                        }
                    }
                    match f.remove_key(k) {
                        Some(v) => {
                            self.key_index.remove(&(k.clone(), v));
                        },
                        None => {},
                    }
                    proof {
                        assert(f@.keys =~= fk.remove_keys(g1));
                        assert(self.index() =~= i0.remove_keys(Set::new(|p: KeyPair| names.take(i as int + 1).contains(p.0) && is_key_pair(fk, p)))) by {
                            assert forall|p: KeyPair| #[trigger] self.index().dom().contains(p) <==> i0.remove_keys(Set::new(|p: KeyPair| names.take(i as int + 1).contains(p.0) && is_key_pair(fk, p))).dom().contains(p) by {
                                assert(names.take(i as int + 1).contains(p.0) <==> g1.contains(p.0));
                                assert(names.take(i as int).contains(p.0) <==> g0.contains(p.0));
                            }
                        }
                    }
                    i += 1;
                }
                assert(names.take(names.len() as int) =~= names);
                self.open_fibers.insert(fid, f);
                proof {
                    lemma_to_map_dom(s0.remove(w), fid);
                    lemma_entries_after_reinsert(s0, w, (fid, f));
                    let gone = Set::new(|n: Seq<char>| names.contains(n));
                    assert(self.fibers() =~= f0.insert(fid, FiberView { keys: fk.remove_keys(gone), ..f0[fid] }));
                    let f1 = self.fibers();
                    let i1 = self.index();
                    assert forall|g: u128, k: Seq<char>| f1.dom().contains(g) && #[trigger] f1[g].keys.dom().contains(k)
                        implies i1.dom().contains((k, f1[g].keys[k])) && i1[(k, f1[g].keys[k])] == g by {
                        let p = (k, f1[g].keys[k]);
                        if g == fid {
                            assert(fk.dom().contains(k) && !gone.contains(k));
                            assert(f0[fid].keys.dom().contains(k));
                        } else {
                            assert(f0.dom().contains(g) && f0[g] == f1[g]);
                            assert(f0[g].keys.dom().contains(k));
                            assert(i0.dom().contains(p) && i0[p] == g);
                            if gone.contains(p.0) && is_key_pair(fk, p) {
                                assert(f0[fid].keys.dom().contains(k));
                            }
                        }
                    }
                }
            },
            None => {},
        }
    }
}


/// The attributes of a log: the extracted ones and those derived from them.
pub open spec fn log_attributes(ft: CompiledFiberType, m: PatternMatch) -> Map<Seq<char>, Seq<char>> {
    derive_all(string_views(ft.derived_order@), ft.derived_templates.map(), m.extracted.map())
}

/// The state after the release of peer keys.
pub open spec fn after_peer_release(fibers: Map<u128, FiberView>, index: Map<KeyPair, u128>, m: PatternMatch) -> PeerState {
    peer_release((fibers, index, Seq::empty(), Seq::empty()), string_views(m.release_matching_peer_keys@), m.extracted.map())
}

/// No open fiber has timed out at the clock.
pub open spec fn none_timed_out(fibers: Map<u128, FiberView>, clock: Timestamp, ft: CompiledFiberType) -> bool {
    ft.temporal.max_gap matches Some(g) ==> forall|fid: u128| #[trigger] fibers.dom().contains(fid)
        ==> !timed_out(fibers[fid], clock, g, ft.temporal.gap_mode)
}

fn clone_string_map(m: &AssocMap<String, String>) -> (r: AssocMap<String, String>)
    requires
        m.wf(),
    ensures
        r.wf(),
        r.map() == m.map(),
{
    let mut entries: Vec<(String, String)> = Vec::new();
    let mut i: usize = 0;
    while i < m.entries.len()
        invariant
            i <= m.entries@.len(),
            entries@.len() == i,
            forall|q: int| 0 <= q < i ==> #[trigger] entries@[q].0@ == m.entries@[q].0@ && entries@[q].1@ == m.entries@[q].1@,
        decreases m.entries@.len() - i,
    {
        let e = &m.entries[i];
        entries.push((e.0.clone(), e.1.clone()));
        i += 1;
    }
    proof {
        crate::assoc::lemma_same_views(m.entries@, entries@);
    }
    AssocMap { entries }
}

impl FiberTypeProcessor {
    proof fn lemma_fiber_valid(&self, g: u128)
        requires
            self.wf(),
            self.fibers().dom().contains(g),
        ensures
            valid_timestamp(self.fibers()[g].first_activity),
            valid_timestamp(self.fibers()[g].last_activity),
    {
        let s = self.open_fibers.seq();
        lemma_to_map_dom(s, g);
        let q = choose|q: int| 0 <= q < s.len() && #[trigger] s[q].0@ == g;
        crate::assoc::lemma_to_map_value(s, q);
        assert(fiber_entry_ok(s[q]));
    }

    /// Processes a log given what its source's patterns extracted from it
    /// (`None`: no pattern applies). `fresh_id` is the id a new fiber gets.
    ///
    /// The logical clock moves to the log's timestamp. With a match: peer
    /// keys are released, the log joins the fiber that holds one of its key
    /// values (a new one when none does; the one with the earliest first
    /// activity, into which the others are merged, when several do), its
    /// own keys named for release are released, the fiber is closed when the
    /// pattern says so. In every case the fibers that have timed out are
    /// then closed.
    pub fn process_match(&mut self, log: &LogRecord, matched: Option<PatternMatch>, fresh_id: u128) -> (r: ProcessResult)
        requires
            old(self).wf(),
            valid_timestamp(log.timestamp),
            matched matches Some(m) ==> m.extracted.wf(),
        ensures
            final(self).wf(),
            final(self).ft() == old(self).ft(),
            final(self).version() == old(self).version(),
            final(self).clock() == Some(log.timestamp),
            none_timed_out(final(self).fibers(), log.timestamp, old(self).ft()),
            match matched {
                None => {
                    &&& r.memberships@.len() == 0
                    &&& r.new_fibers@.len() == 0
                    &&& r.updated_fibers@.len() == 0
                    &&& r.merged_fiber_ids@.len() == 0
                    &&& match old(self).ft().temporal.max_gap {
                        Some(g) => {
                            let t = timed_out_set(old(self).fibers(), log.timestamp, g, old(self).ft().temporal.gap_mode);
                            &&& final(self).fibers() == without(old(self).fibers(), t)
                            &&& final(self).index() == drop_pairs(old(self).index(), old(self).fibers(), t)
                            &&& r.closed_fiber_ids@.no_duplicates()
                            &&& r.closed_fiber_ids@.to_set() == t
                        },
                        None => {
                            &&& final(self).fibers() == old(self).fibers()
                            &&& final(self).index() == old(self).index()
                            &&& r.closed_fiber_ids@.len() == 0
                        },
                    }
                },
                Some(m) => {
                    &&& match_effect(*old(self), *final(self), r, *log, m)
                    &&& (r.new_fibers@.len() == 1 ==> r.memberships@[0].fiber_id == fresh_id)
                },
            },
    {
        let mut result = ProcessResult::new();
        self.logical_clock = Some(log.timestamp);
        let m = match matched {
            Some(m) => m,
            None => {
                let ghost c0 = result.closed_fiber_ids@;
                self.check_timeouts(&mut result);
                assert(result.closed_fiber_ids@.skip(0) =~= result.closed_fiber_ids@);
                return result;
            },
        };
        let ghost keys = string_views(self.fiber_type.key_names@);
        let mut all_attrs = clone_string_map(&m.extracted);
        self.compute_derived_attributes(&mut all_attrs);
        let ghost attrs = all_attrs.map();
        let ghost ka = key_attrs(attrs, keys);
        let ghost f0 = self.fibers();
        let ghost i0 = self.index();
        assert(result.updated_fibers@ =~= Seq::<FiberRecord>::empty());
        assert(record_ids(result.updated_fibers@) =~= Seq::<u128>::empty());
        self.release_matching_peer_keys(&m.release_matching_peer_keys, &m.extracted, &mut result);
        let ghost f1 = self.fibers();
        let ghost i1 = self.index();
        let ghost u1 = result.updated_fibers@;
        let ghost peer = after_peer_release(f0, i0, m);
        proof {
            assert(f1 == peer.0 && i1 == peer.1);
            assert(u1.len() == peer.3.len());
            assert forall|i: int| 0 <= i < peer.3.len() implies #[trigger] record_of(u1[i], peer.3[i], old(self).version()) by {
                assert(u1[0 + i] == u1[i]);
            }
            assert(result.merged_fiber_ids@.len() == 0);
            assert(result.closed_fiber_ids@.len() == 0);
            assert(result.memberships@.len() == 0);
            assert(result.new_fibers@.len() == 0);
        }
        proof {
            // the peer release seen from an empty list of updated records
            assert(record_ids(Seq::<FiberRecord>::empty()) =~= Seq::<u128>::empty());
        }
        let matching = self.find_matching_fibers(&all_attrs);
        let ghost mset = matching_set(attrs, keys, i1);
        proof {
            // every open fiber that holds one of the log's key values matches
            assert forall|g: u128, n: Seq<char>| #![trigger f1.dom().contains(g), ka.dom().contains(n)]
                f1.dom().contains(g) && ka.dom().contains(n) && is_key_pair(f1[g].keys, (n, ka[n])) implies mset.contains(g) by {
                assert(f1[g].keys.dom().contains(n));
                assert(attrs.dom().contains(n) && keys.contains(n));
            }
        }
        let is_new: bool;
        let target: u128;
        if matching.len() == 0 {
            proof {
                assert(mset =~= Set::<u128>::empty()) by {
                    assert forall|x: u128| !mset.contains(x) by {
                        if mset.contains(x) {
                            assert(matching@.contains(x));
                        }
                    }
                }
            }
            // an open fiber that has the new id gives it up, with its keys
            let mut displaced = ProcessResult::new();
            self.close_fiber(fresh_id, &mut displaced);
            let ghost fc = self.fibers();
            let ghost ic = self.index();
            assert(ic == drop_pairs(i1, f1, set![fresh_id])) by {
                if !f1.dom().contains(fresh_id) {
                    assert(drop_pairs(i1, f1, set![fresh_id]) =~= i1);
                }
            }
            let f = OpenFiber::with_id(fresh_id, self.fiber_type.name.clone(), log.timestamp);
            proof {
                assert(f@.log_ids =~= Seq::<u128>::empty());
                assert(f@ == fresh_view(fresh_id, self.fiber_type.name@, log.timestamp));
            }
            let ghost s0 = self.open_fibers.seq();
            self.open_fibers.insert(fresh_id, f);
            proof {
                assert(self.fibers() =~= f1.insert(fresh_id, fresh_view(fresh_id, self.fiber_type.name@, log.timestamp)));
            }
            proof {
                // the new fiber has no keys, so the index still covers every key
                let s1 = self.open_fibers.seq();
                assert forall|i: int| 0 <= i < s1.len() implies #[trigger] fiber_entry_ok(s1[i]) by {
                    if has_key(s0, fresh_id) {
                        let w = choose|w: int| 0 <= w < s0.len() && s0[w].0@ == fresh_id && s1 == s0.update(w, (fresh_id, f));
                        if i != w {
                            assert(s1[i] == s0[i]);
                        }
                    } else {
                        if i < s0.len() {
                            assert(s1[i] == s0[i]);
                        }
                    }
                }
                let fx = self.fibers();
                assert forall|g: u128, k: Seq<char>| fx.dom().contains(g) && #[trigger] fx[g].keys.dom().contains(k)
                    implies ic.dom().contains((k, fx[g].keys[k])) && ic[(k, fx[g].keys[k])] == g by {
                    if g != fresh_id {
                        assert(fc[g] == fx[g]);
                    }
                }
                assert forall|g: u128, n: Seq<char>| #![trigger fx.dom().contains(g), ka.dom().contains(n)]
                    fx.dom().contains(g) && g != fresh_id && ka.dom().contains(n) implies !is_key_pair(fx[g].keys, (n, ka[n])) by {
                    assert(f1.dom().contains(g) && f1[g] == fx[g]);
                    if is_key_pair(fx[g].keys, (n, ka[n])) {
                        assert(mset.contains(g));
                    }
                }
            }
            is_new = true;
            target = fresh_id;
        } else if matching.len() == 1 {
            is_new = false;
            target = matching[0];
            proof {
                let e = Seq::<u128>::empty();
                if f1.dom().contains(target) {
                    assert(without(f1, e.to_set()) =~= f1);
                    assert(merge_fold(f1[target], e, f1) == f1[target]);
                    assert(after_merge(f1, e, target) =~= f1);
                } else {
                    assert(after_merge(f1, e, target) == f1);
                }
                assert(merge_index(i1, f1, e, target) == i1);
                assert forall|x: u128| #[trigger] matching@.contains(x) implies x == target by {
                    let q = choose|q: int| 0 <= q < matching@.len() && matching@[q] == x;
                    assert(q == 0);
                }
            }
            proof {
                assert forall|g: u128, n: Seq<char>| #![trigger f1.dom().contains(g), ka.dom().contains(n)]
                    f1.dom().contains(g) && g != target && ka.dom().contains(n) implies !is_key_pair(f1[g].keys, (n, ka[n])) by {
                    if is_key_pair(f1[g].keys, (n, ka[n])) {
                        assert(mset.contains(g));
                        assert(matching@.contains(g));
                        let q = choose|q: int| 0 <= q < matching@.len() && matching@[q] == g;
                    }
                }
            }
        } else {
            is_new = false;
            target = self.merge_fibers(&matching, &mut result);
            proof {
                assert(result.merged_fiber_ids@ =~= open_others(matching@, target, f1));
            }
            proof {
                let oo = open_others(matching@, target, f1);
                lemma_open_others_props(matching@, target, f1);
                let fx = self.fibers();
                assert forall|g: u128, n: Seq<char>| #![trigger fx.dom().contains(g), ka.dom().contains(n)]
                    fx.dom().contains(g) && g != target && ka.dom().contains(n) implies !is_key_pair(fx[g].keys, (n, ka[n])) by {
                    assert(f1.dom().contains(g) && fx[g] == f1[g]) by {
                        if f1.dom().contains(target) {
                            assert(without(f1, oo.to_set()).dom().contains(g));
                        }
                    }
                    if is_key_pair(fx[g].keys, (n, ka[n])) {
                        assert(mset.contains(g));
                        assert(matching@.contains(g));
                        if f1.dom().contains(target) {
                            assert(oo.contains(g));
                            assert(!without(f1, oo.to_set()).dom().contains(g));
                        } else {
                            let q = choose|q: int| 0 <= q < matching@.len() && matching@[q] == g;
                            assert(merge_rank(f1, matching@[q]) >= merge_rank(f1, target));
                            self.lemma_fiber_valid(g);
                        }
                    }
                }
            }
        }
        let ghost f2 = self.fibers();
        let ghost i2 = self.index();
        proof {
            assert(attrs == log_attributes(self.fiber_type, m));
            assert(i1 == after_peer_release(f0, i0, m).1);
            if matching@.len() > 0 {
                assert(matching@.contains(matching@[0]));
                assert(mset.contains(matching@[0]));
                assert(!mset.is_empty());
                assert(matching@.contains(target));
                assert(mset.contains(target));
            }
            if is_new {
                assert(f2.dom().contains(target));
            }
        }
        self.update_fiber_with_attributes(target, log, &all_attrs);
        let ghost f3 = self.fibers();
        let ghost i3 = self.index();
        if is_new {
            match self.open_fibers.get(&target) {
                Some(f) => {
                    proof {
                        let q = choose|q: int| 0 <= q < self.open_fibers.seq().len() && self.open_fibers.seq()[q].0@ == target && self.open_fibers.seq()[q].1 == *f;
                        assert(fiber_entry_ok(self.open_fibers.seq()[q]));
                    }
                    let rec = self.fiber_to_record(f);
                    result.new_fibers.push(rec);
                },
                None => {},
            }
        }
        result.memberships.push(FiberMembership { log_id: log.id, fiber_id: target, config_version: self.config_version });
        self.release_self_keys(&m.release_self_keys, target);
        let ghost f4 = self.fibers();
        let ghost i4 = self.index();
        let ghost c4 = result.closed_fiber_ids@;
        if m.close {
            self.close_fiber(target, &mut result);
        }
        let ghost f5 = self.fibers();
        let ghost i5 = self.index();
        let ghost c5 = result.closed_fiber_ids@;
        proof {
            assert(c4.len() == 0);
            assert(c5 == if m.close && f4.dom().contains(target) { seq![target] } else { Seq::<u128>::empty() });
        }
        let ghost clk = self.clock();
        let ghost ftb = self.ft();
        proof {
            assert(clk == Some(log.timestamp));
            assert(ftb == old(self).ft());
        }
        self.check_timeouts(&mut result);
        let ghost f6 = self.fibers();
        let ghost u6 = result.updated_fibers@;
        proof {
            let tset = timeout_set((f5, i5), log.timestamp, ftb);
            assert(appended_set(c5, result.closed_fiber_ids@, tset)) by {
                match ftb.temporal.max_gap {
                    Some(g) => {
                        assert(tset == timed_out_set(f5, log.timestamp, g, ftb.temporal.gap_mode));
                    },
                    None => {
                        assert(result.closed_fiber_ids@ == c5);
                        assert(result.closed_fiber_ids@.take(c5.len() as int) =~= c5);
                        assert(result.closed_fiber_ids@.skip(c5.len() as int) =~= Seq::<u128>::empty());
                        assert(Seq::<u128>::empty().to_set() =~= Set::<u128>::empty());
                    },
                }
            }
            assert(u6 == u1);
            if f6.dom().contains(target) {
                assert(!result.closed_fiber_ids@.contains(target)) by {
                    if result.closed_fiber_ids@.contains(target) {
                        let q = choose|q: int| 0 <= q < result.closed_fiber_ids@.len() && result.closed_fiber_ids@[q] == target;
                        if q < c5.len() {
                            assert(result.closed_fiber_ids@.take(c5.len() as int)[q] == c5[q]);
                            assert(!f5.dom().contains(target));
                        } else {
                            assert(result.closed_fiber_ids@.skip(c5.len() as int)[q - c5.len()] == target);
                            assert(result.closed_fiber_ids@.skip(c5.len() as int).to_set().contains(target));
                            assert(tset.contains(target));
                        }
                    }
                }
            }
        }
        if !is_new && !contains_id(&result.closed_fiber_ids, target) {
            match self.open_fibers.get(&target) {
                Some(f) => {
                    proof {
                        let q = choose|q: int| 0 <= q < self.open_fibers.seq().len() && self.open_fibers.seq()[q].0@ == target && self.open_fibers.seq()[q].1 == *f;
                        assert(fiber_entry_ok(self.open_fibers.seq()[q]));
                    }
                    let rec = self.fiber_to_record(f);
                    result.updated_fibers.push(rec);
                },
                None => {},
            }
        }
        proof {
            let o = *old(self);
            let mset = matching_set(attrs, keys, i1);
            assert(attrs == log_attributes(o.ft(), m));
            assert(keys == string_views(o.ft().key_names@));
            assert(peer == after_peer_release(o.fibers(), o.index(), m));
            assert(is_new == mset.is_empty()) by {
                if matching@.len() > 0 {
                    assert(matching@.contains(matching@[0]));
                    assert(mset.contains(matching@[0]));
                }
            }
            assert forall|x: u128| #[trigger] mset.contains(x) <==> matching@.contains(x) by {}
            if !is_new {
                assert forall|x: u128| #[trigger] mset.contains(x) implies merge_rank(f1, x) >= merge_rank(f1, target) by {
                    if matching@.len() > 1 {
                        let q = choose|q: int| 0 <= q < matching@.len() && matching@[q] == x;
                        assert(merge_rank(f1, matching@[q]) >= merge_rank(f1, target));
                    } else {
                        let q = choose|q: int| 0 <= q < matching@.len() && matching@[q] == x;
                        assert(q == 0);
                    }
                }
            }
            if matching@.len() > 1 {
                lemma_open_others_props(matching@, target, f1);
                assert(result.merged_fiber_ids@ == open_others(matching@, target, f1));
            } else {
                assert(result.merged_fiber_ids@.len() == 0);
                assert forall|x: u128| #[trigger] result.merged_fiber_ids@.contains(x)
                    <==> (!is_new && mset.contains(x) && x != target && f1.dom().contains(x)) by {
                    if !is_new && mset.contains(x) && x != target {
                        let q = choose|q: int| 0 <= q < matching@.len() && matching@[q] == x;
                        assert(q == 0);
                    }
                }
            }
            let s2: Stage = (f2, i2);
            if is_new {
                assert(f2 == f1.insert(target, fresh_view(target, o.ft().name@, log.timestamp)));
                assert(i2 == drop_pairs(i1, f1, set![target]));
            } else if matching@.len() == 1 {
                assert(f2 == f1 && i2 == i1);
                assert(result.merged_fiber_ids@ =~= Seq::<u128>::empty());
                assert(f2 == after_merge(f1, result.merged_fiber_ids@, target));
                assert(i2 == merge_index(i1, f1, result.merged_fiber_ids@, target));
            } else {
                assert(f2 == after_merge(f1, result.merged_fiber_ids@, target));
                assert(i2 == merge_index(i1, f1, result.merged_fiber_ids@, target));
            }
            assert(ftb == o.ft());
            assert(c5 == if m.close && f4.dom().contains(target) { seq![target] } else { Seq::<u128>::empty() });
            assert(appended_set(c5, result.closed_fiber_ids@, timeout_set((f5, i5), log.timestamp, o.ft())));
            assert forall|i: int| 0 <= i < peer.3.len() implies #[trigger] record_of(result.updated_fibers@[i], peer.3[i], o.version()) by {
                assert(result.updated_fibers@[i] == u1[i]);
            }
            assert((f3, i3) == join_stage(s2, target, *log, attrs, keys, o.ft().attributes@));
            assert((f4, i4) == self_release_stage((f3, i3), target, string_views(m.release_self_keys@)));
            assert((f5, i5) == close_stage((f4, i4), target, m.close));
            assert((self.fibers(), self.index()) == timeout_stage((f5, i5), log.timestamp, o.ft()));
            assert(result.memberships@.len() == 1 && result.memberships@[0].fiber_id == target);
            assert(match_effect(o, *self, result, *log, m));
        }
        result
    }
}

/// Whether the id is in the list.
fn contains_id(v: &Vec<u128>, id: u128) -> (b: bool)
    ensures
        b == v@.contains(id),
{
    let mut i: usize = 0;
    while i < v.len()
        invariant
            i <= v@.len(),
            forall|q: int| 0 <= q < i ==> v@[q] != id,
        decreases v@.len() - i,
    {
        if v[i] == id {
            return true;
        }
        i += 1;
    }
    false
}


/// The fiber a checkpoint entry stands for, of the given type.
pub open spec fn restored_view(c: OpenFiberCheckpoint, fiber_type: Seq<char>) -> FiberView {
    FiberView {
        fiber_id: c.fiber_id,
        fiber_type,
        keys: to_map(c.keys@),
        attributes: to_map(c.attributes@),
        first_activity: c.first_activity,
        last_activity: c.last_activity,
        log_ids: c.log_ids@,
    }
}

/// The open fibers restored from the entries, a later entry replacing an
/// earlier one with the same id.
pub open spec fn restored_fibers(cs: Seq<OpenFiberCheckpoint>, fiber_type: Seq<char>) -> Map<u128, FiberView>
    decreases cs.len(),
{
    if cs.len() == 0 {
        Map::empty()
    } else {
        restored_fibers(cs.drop_last(), fiber_type).insert(cs.last().fiber_id, restored_view(cs.last(), fiber_type))
    }
}

/// The index rebuilt from the entries: each key pair points to the last
/// entry that holds it.
pub open spec fn restored_index(cs: Seq<OpenFiberCheckpoint>) -> Map<KeyPair, u128>
    decreases cs.len(),
{
    if cs.len() == 0 {
        Map::empty()
    } else {
        restored_index(cs.drop_last()).union_prefer_right(
            Map::new(|p: KeyPair| is_key_pair(to_map(cs.last().keys@), p), |p: KeyPair| cs.last().fiber_id))
    }
}

/// The instants of the checkpoint are in the supported range.
pub open spec fn checkpoint_in_range(cp: FiberProcessorCheckpoint) -> bool {
    &&& valid_timestamp(cp.logical_clock)
    &&& forall|i: int| 0 <= i < cp.open_fibers@.len() ==> valid_timestamp(#[trigger] cp.open_fibers@[i].first_activity)
        && valid_timestamp(cp.open_fibers@[i].last_activity)
}

/// Distinct fibers with disjoint key pairs, as a checkpoint of a
/// processor always has.
pub open spec fn checkpoint_consistent(cp: FiberProcessorCheckpoint) -> bool {
    let cs = cp.open_fibers@;
    forall|i: int, j: int| 0 <= i < cs.len() && 0 <= j < cs.len() && i != j ==> {
        &&& #[trigger] cs[i].fiber_id != #[trigger] cs[j].fiber_id
        &&& forall|p: KeyPair| !(is_key_pair(to_map(cs[i].keys@), p) && is_key_pair(to_map(cs[j].keys@), p))
    }
}

/// The entry saves the fiber.
pub open spec fn saves(c: OpenFiberCheckpoint, f: FiberView) -> bool {
    &&& c.fiber_id == f.fiber_id
    &&& unique_keys(c.keys@)
    &&& to_map(c.keys@) == f.keys
    &&& unique_keys(c.attributes@)
    &&& to_map(c.attributes@) == f.attributes
    &&& c.first_activity == f.first_activity
    &&& c.last_activity == f.last_activity
    &&& c.log_ids@ == f.log_ids
}

fn copy_pairs(v: &AssocMap<String, String>) -> (r: Vec<(String, String)>)
    requires
        v.wf(),
    ensures
        unique_keys(r@),
        to_map(r@) == v.map(),
{
    let mut out: Vec<(String, String)> = Vec::new();
    let mut i: usize = 0;
    while i < v.entries.len()
        invariant
            i <= v.entries@.len(),
            out@.len() == i,
            forall|q: int| 0 <= q < i ==> #[trigger] out@[q].0@ == v.entries@[q].0@ && out@[q].1@ == v.entries@[q].1@,
        decreases v.entries@.len() - i,
    {
        let e = &v.entries[i];
        out.push((e.0.clone(), e.1.clone()));
        i += 1;
    }
    proof {
        crate::assoc::lemma_same_views(v.entries@, out@);
    }
    out
}

fn copy_attrs(v: &AssocMap<String, AttributeValue>) -> (r: Vec<(String, AttributeValue)>)
    requires
        v.wf(),
    ensures
        unique_keys(r@),
        to_map(r@) == v.map(),
{
    let mut out: Vec<(String, AttributeValue)> = Vec::new();
    let mut i: usize = 0;
    while i < v.entries.len()
        invariant
            i <= v.entries@.len(),
            out@.len() == i,
            forall|q: int| 0 <= q < i ==> #[trigger] out@[q].0@ == v.entries@[q].0@ && out@[q].1@ == v.entries@[q].1@,
        decreases v.entries@.len() - i,
    {
        let e = &v.entries[i];
        out.push((e.0.clone(), e.1.clone()));
        i += 1;
    }
    proof {
        crate::assoc::lemma_same_views(v.entries@, out@);
    }
    out
}

/// A fiber just made: no keys, attributes or logs yet, active at `ts`.
pub open spec fn fresh_view(id: u128, fiber_type: Seq<char>, ts: Timestamp) -> FiberView {
    FiberView {
        fiber_id: id,
        fiber_type,
        keys: Map::empty(),
        attributes: Map::empty(),
        first_activity: ts,
        last_activity: ts,
        log_ids: Seq::empty(),
    }
}

/// The open fibers and the key index at a step of processing a log.
pub type Stage = (Map<u128, FiberView>, Map<KeyPair, u128>);

/// The target takes the log: its logs, activity, attributes and keys, and
/// the index follows its keys.
pub open spec fn join_stage(s: Stage, t: u128, log: LogRecord, attrs: Map<Seq<char>, Seq<char>>, keys: Seq<Seq<char>>, defs: Seq<AttributeDef>) -> Stage {
    if s.0.dom().contains(t) {
        (
            s.0.insert(t, joined(s.0[t], log.id, log.timestamp, attrs, keys, defs)),
            updated_index(s.1, s.0[t].keys, key_attrs(attrs, keys), t),
        )
    } else {
        s
    }
}

/// The keys that the pattern releases leave the target and the index.
pub open spec fn self_release_stage(s: Stage, t: u128, names: Seq<Seq<char>>) -> Stage {
    if s.0.dom().contains(t) {
        let fk = s.0[t].keys;
        let gone = Set::new(|n: Seq<char>| names.contains(n));
        (
            s.0.insert(t, FiberView { keys: fk.remove_keys(gone), ..s.0[t] }),
            s.1.remove_keys(Set::new(|p: KeyPair| gone.contains(p.0) && is_key_pair(fk, p))),
        )
    } else {
        s
    }
}

/// The target closes when the pattern says so: it leaves the open fibers
/// and its keys leave the index.
pub open spec fn close_stage(s: Stage, t: u128, close: bool) -> Stage {
    if close && s.0.dom().contains(t) {
        (s.0.remove(t), drop_pairs(s.1, s.0, set![t]))
    } else {
        s
    }
}

/// The fibers timed out at the clock close, and their keys leave the index.
pub open spec fn timeout_stage(s: Stage, clock: Timestamp, ft: CompiledFiberType) -> Stage {
    match ft.temporal.max_gap {
        Some(g) => {
            let t = timed_out_set(s.0, clock, g, ft.temporal.gap_mode);
            (without(s.0, t), drop_pairs(s.1, s.0, t))
        },
        None => s,
    }
}

/// The fibers closed on timeout at the clock.
pub open spec fn timeout_set(s: Stage, clock: Timestamp, ft: CompiledFiberType) -> Set<u128> {
    match ft.temporal.max_gap {
        Some(g) => timed_out_set(s.0, clock, g, ft.temporal.gap_mode),
        None => Set::empty(),
    }
}

/// What processing a log does for the match `m` of the first pattern of its
/// source that matches it. The log joins one fiber, `target`:
/// - the peer keys that the pattern names are released first (stage 1);
/// - when no open fiber holds one of the log's key values, a new fiber is
///   made for the log; otherwise the target is the matching fiber that was
///   active first, and the other open matching fibers are merged into it,
///   in the order reported (stage 2);
/// - the target takes the log (stage 3), releases the keys the pattern
///   names (stage 4), and closes if the pattern says so (stage 5);
/// - the fibers timed out at the log's time close (stage 6).
/// The result reports the membership, the new fiber, the merged ids, the
/// closed ids (the target first, if it closed, then the timed-out fibers)
/// and the fibers updated: those whose peer keys were released, then the
/// target, when it was there before and stays open.
pub open spec fn match_effect(o: FiberTypeProcessor, f: FiberTypeProcessor, r: ProcessResult, log: LogRecord, m: PatternMatch) -> bool {
    let attrs = log_attributes(o.ft(), m);
    let keys = string_views(o.ft().key_names@);
    let released = after_peer_release(o.fibers(), o.index(), m);
    let s1: Stage = (released.0, released.1);
    let mset = matching_set(attrs, keys, s1.1);
    let target = r.memberships@[0].fiber_id;
    let is_new = mset.is_empty();
    let s2: Stage = if is_new {
        (s1.0.insert(target, fresh_view(target, o.ft().name@, log.timestamp)), drop_pairs(s1.1, s1.0, set![target]))
    } else {
        (after_merge(s1.0, r.merged_fiber_ids@, target), merge_index(s1.1, s1.0, r.merged_fiber_ids@, target))
    };
    let s3 = join_stage(s2, target, log, attrs, keys, o.ft().attributes@);
    let s4 = self_release_stage(s3, target, string_views(m.release_self_keys@));
    let s5 = close_stage(s4, target, m.close);
    let s6 = timeout_stage(s5, log.timestamp, o.ft());
    let closed_first: Seq<u128> = if m.close && s4.0.dom().contains(target) { seq![target] } else { Seq::empty() };
    let np = released.3.len() as int;
    &&& r.memberships@.len() == 1
    &&& r.memberships@[0].log_id == log.id
    &&& r.memberships@[0].config_version == o.version()
    &&& (r.new_fibers@.len() == 1 <==> is_new)
    &&& r.new_fibers@.len() <= 1
    &&& (is_new ==> s3.0.dom().contains(target) && record_of(r.new_fibers@[0], s3.0[target], o.version()))
    &&& (!is_new ==> mset.contains(target)
        && forall|x: u128| #[trigger] mset.contains(x) ==> merge_rank(s1.0, x) >= merge_rank(s1.0, target))
    &&& r.merged_fiber_ids@.no_duplicates()
    &&& (forall|x: u128| #[trigger] r.merged_fiber_ids@.contains(x) <==> (!is_new && mset.contains(x) && x != target && s1.0.dom().contains(x)))
    &&& f.fibers() == s6.0
    &&& f.index() == s6.1
    &&& appended_set(closed_first, r.closed_fiber_ids@, timeout_set(s5, log.timestamp, o.ft()))
    &&& r.updated_fibers@.len() == np + (if !is_new && s6.0.dom().contains(target) { 1int } else { 0int })
    &&& (forall|i: int| 0 <= i < np ==> #[trigger] record_of(r.updated_fibers@[i], released.3[i], o.version()))
    &&& (!is_new && s6.0.dom().contains(target) ==> record_of(r.updated_fibers@[np], s6.0[target], o.version()))
}

/// What processing a log that no pattern of the fiber type matches does:
/// the log joins no fiber, and only the fibers timed out at its time close
/// (their keys leaving the index).
pub open spec fn unmatched_effect(o: FiberTypeProcessor, f: FiberTypeProcessor, r: ProcessResult, log: LogRecord) -> bool {
    &&& r.memberships@.len() == 0
    &&& r.new_fibers@.len() == 0
    &&& r.updated_fibers@.len() == 0
    &&& r.merged_fiber_ids@.len() == 0
    &&& match o.ft().temporal.max_gap {
        Some(g) => {
            let t = timed_out_set(o.fibers(), log.timestamp, g, o.ft().temporal.gap_mode);
            &&& f.fibers() == without(o.fibers(), t)
            &&& f.index() == drop_pairs(o.index(), o.fibers(), t)
            &&& r.closed_fiber_ids@.no_duplicates()
            &&& r.closed_fiber_ids@.to_set() == t
        },
        None => {
            &&& f.fibers() == o.fibers()
            &&& f.index() == o.index()
            &&& r.closed_fiber_ids@.len() == 0
        },
    }
}

/// What processing a log with one fiber type does, whether a pattern
/// matches it or not.
pub open spec fn type_log_effect(o: FiberTypeProcessor, f: FiberTypeProcessor, r: ProcessResult, log: LogRecord) -> bool {
    &&& matched_effect(o, f, r, log)
    &&& (!log_matches(o.ft(), log.source_id@, log.raw_text@) ==> unmatched_effect(o, f, r, log))
}

/// When a pattern of the fiber type matches the log, processing it had the
/// effect that `match_effect` gives for the match of the first such pattern.
pub open spec fn matched_effect(o: FiberTypeProcessor, f: FiberTypeProcessor, r: ProcessResult, log: LogRecord) -> bool {
    let pm = o.ft().source_patterns.map();
    log_matches(o.ft(), log.source_id@, log.raw_text@) ==> exists|m: PatternMatch|
        match_of(m, pm[log.source_id@][match_from(pm[log.source_id@], log.raw_text@, 0).unwrap()], log.raw_text@)
        && #[trigger] match_effect(o, f, r, log, m)
}

impl FiberTypeProcessor {
    /// Processes a log: the first pattern of its source that matches
    /// extracts its attributes (see `extract_attributes`), and the log is
    /// then processed as `process_match` describes, a new fiber taking a
    /// fresh random id.
    pub fn process_log(&mut self, log: &LogRecord) -> (r: ProcessResult)
        requires
            old(self).wf(),
            valid_timestamp(log.timestamp),
        ensures
            final(self).wf(),
            final(self).ft() == old(self).ft(),
            final(self).version() == old(self).version(),
            final(self).clock() == Some(log.timestamp),
            none_timed_out(final(self).fibers(), log.timestamp, old(self).ft()),
            r.memberships@.len() <= 1,
            r.new_fibers@.len() <= 1,
            ({
                let pm = old(self).ft().source_patterns.map();
                let matched = pm.dom().contains(log.source_id@) && match_from(pm[log.source_id@], log.raw_text@, 0) is Some;
                &&& (matched ==> r.memberships@.len() == 1 && r.memberships@[0].log_id == log.id
                    && r.memberships@[0].config_version == old(self).version())
                &&& (!matched ==> {
                    &&& r.memberships@.len() == 0
                    &&& r.new_fibers@.len() == 0
                    &&& r.updated_fibers@.len() == 0
                    &&& r.merged_fiber_ids@.len() == 0
                    &&& match old(self).ft().temporal.max_gap {
                        Some(g) => {
                            let t = timed_out_set(old(self).fibers(), log.timestamp, g, old(self).ft().temporal.gap_mode);
                            &&& final(self).fibers() == without(old(self).fibers(), t)
                            &&& final(self).index() == drop_pairs(old(self).index(), old(self).fibers(), t)
                            &&& r.closed_fiber_ids@.no_duplicates()
                            &&& r.closed_fiber_ids@.to_set() == t
                        },
                        None => {
                            &&& final(self).fibers() == old(self).fibers()
                            &&& final(self).index() == old(self).index()
                            &&& r.closed_fiber_ids@.len() == 0
                        },
                    }
                })
            }),
            matched_effect(*old(self), *final(self), r, *log),
            type_log_effect(*old(self), *final(self), r, *log),
            index_exact(old(self).fibers(), old(self).index()) ==> index_exact(final(self).fibers(), final(self).index()),
    {
        let matched = self.extract_attributes(log);
        let ghost gm = matched;
        let fresh = crate::ids::new_id();
        let r = self.process_match(log, matched, fresh);
        proof {
            match gm {
                Some(m) => {
                    assert(match_effect(*old(self), *self, r, *log, m));
                    if index_exact(old(self).fibers(), old(self).index()) {
                        law_match_keeps_index_exact(*old(self), *self, r, *log, m);
                    }
                },
                None => {
                    assert(unmatched_effect(*old(self), *self, r, *log));
                    if index_exact(old(self).fibers(), old(self).index()) {
                        law_unmatched_keeps_index_exact(*old(self), *self, r, *log);
                    }
                },
            }
        }
        r
    }

    /// A checkpoint of the open fibers and the logical clock (the current
    /// time when no log has been processed yet).
    pub fn create_checkpoint(&self) -> (c: FiberProcessorCheckpoint)
        requires
            self.wf(),
        ensures
            self.clock() matches Some(t) ==> c.logical_clock == t,
            valid_timestamp(c.logical_clock),
            c.open_fibers@.len() == self.fibers().dom().len(),
            forall|i: int| 0 <= i < c.open_fibers@.len() ==> #[trigger] self.fibers().dom().contains(c.open_fibers@[i].fiber_id)
                && saves(c.open_fibers@[i], self.fibers()[c.open_fibers@[i].fiber_id]),
            forall|i: int, j: int| 0 <= i < c.open_fibers@.len() && 0 <= j < c.open_fibers@.len() && i != j
                ==> #[trigger] c.open_fibers@[i].fiber_id != #[trigger] c.open_fibers@[j].fiber_id,
    {
        let ghost s = self.open_fibers.seq();
        let mut out: Vec<OpenFiberCheckpoint> = Vec::new();
        let n = self.open_fibers.entries.len();
        let mut i: usize = 0;
        while i < n
            invariant
                n == s.len(),
                s == self.open_fibers.seq(),
                self.wf(),
                i <= n,
                out@.len() == i,
                forall|q: int| 0 <= q < i ==> #[trigger] out@[q].fiber_id == s[q].0 && saves(out@[q], s[q].1@),
            decreases n - i,
        {
            let e = &self.open_fibers.entries[i];
            assert(fiber_entry_ok(s[i as int]));
            out.push(OpenFiberCheckpoint {
                fiber_id: e.0,
                keys: copy_pairs(&e.1.keys),
                attributes: copy_attrs(&e.1.attributes),
                first_activity: e.1.first_activity,
                last_activity: e.1.last_activity,
                log_ids: e.1.log_ids.clone(),
            });
            i += 1;
        }
        proof {
            lemma_to_map_unique(s);
            crate::assoc::lemma_to_map_len(s);
            assert forall|q: int| 0 <= q < out@.len() implies #[trigger] self.fibers().dom().contains(out@[q].fiber_id)
                && saves(out@[q], self.fibers()[out@[q].fiber_id]) by {
                crate::assoc::lemma_to_map_value(s, q);
            }
            assert forall|a: int, b: int| 0 <= a < out@.len() && 0 <= b < out@.len() && a != b
                implies #[trigger] out@[a].fiber_id != #[trigger] out@[b].fiber_id by {
                crate::assoc::lemma_unique_at(s, a, b);
            }
        }
        let clock = match self.logical_clock {
            Some(t) => t,
            None => crate::time::now_timestamp(),
        };
        FiberProcessorCheckpoint { open_fibers: out, logical_clock: clock }
    }
}


proof fn lemma_restored_dom(t: Seq<OpenFiberCheckpoint>, name: Seq<char>, x: u128)
    ensures
        restored_fibers(t, name).dom().contains(x) <==> exists|w: int| 0 <= w < t.len() && #[trigger] t[w].fiber_id == x,
    decreases t.len(),
{
    if t.len() > 0 {
        lemma_restored_dom(t.drop_last(), name, x);
        if exists|w: int| 0 <= w < t.drop_last().len() && #[trigger] t.drop_last()[w].fiber_id == x {
            let w = choose|w: int| 0 <= w < t.drop_last().len() && #[trigger] t.drop_last()[w].fiber_id == x;
            assert(t[w] == t.drop_last()[w]);
        }
        if exists|w: int| 0 <= w < t.len() && #[trigger] t[w].fiber_id == x {
            let w = choose|w: int| 0 <= w < t.len() && #[trigger] t[w].fiber_id == x;
            if w < t.len() - 1 {
                assert(t.drop_last()[w] == t[w]);
            }
        }
    }
}

proof fn lemma_restored_at(t: Seq<OpenFiberCheckpoint>, name: Seq<char>, w: int)
    requires
        0 <= w < t.len(),
        forall|i: int, j: int| 0 <= i < t.len() && 0 <= j < t.len() && i != j ==> #[trigger] t[i].fiber_id != #[trigger] t[j].fiber_id,
    ensures
        restored_fibers(t, name).dom().contains(t[w].fiber_id),
        restored_fibers(t, name)[t[w].fiber_id] == restored_view(t[w], name),
    decreases t.len(),
{
    if w < t.len() - 1 {
        let u = t.drop_last();
        assert forall|i: int, j: int| 0 <= i < u.len() && 0 <= j < u.len() && i != j implies #[trigger] u[i].fiber_id != #[trigger] u[j].fiber_id by {
            assert(u[i] == t[i] && u[j] == t[j]);
        }
        lemma_restored_at(u, name, w);
        assert(u[w] == t[w]);
        assert(t[w].fiber_id != t[t.len() - 1].fiber_id);
    }
}

fn pairs_to_map(v: &Vec<(String, String)>) -> (r: AssocMap<String, String>)
    ensures
        r.wf(),
        r.map() == to_map(v@),
{
    let mut m: AssocMap<String, String> = AssocMap::new();
    let mut i: usize = 0;
    while i < v.len()
        invariant
            i <= v@.len(),
            m.wf(),
            m.map() == to_map(v@.take(i as int)),
        decreases v@.len() - i,
    {
        assert(v@.take(i as int + 1).drop_last() =~= v@.take(i as int));
        m.insert(v[i].0.clone(), v[i].1.clone());
        i += 1;
    }
    assert(v@.take(v@.len() as int) =~= v@);
    m
}

fn attrs_to_map(v: &Vec<(String, AttributeValue)>) -> (r: AssocMap<String, AttributeValue>)
    ensures
        r.wf(),
        r.map() == to_map(v@),
{
    let mut m: AssocMap<String, AttributeValue> = AssocMap::new();
    let mut i: usize = 0;
    while i < v.len()
        invariant
            i <= v@.len(),
            m.wf(),
            m.map() == to_map(v@.take(i as int)),
        decreases v@.len() - i,
    {
        assert(v@.take(i as int + 1).drop_last() =~= v@.take(i as int));
        m.insert(v[i].0.clone(), v[i].1.clone());
        i += 1;
    }
    assert(v@.take(v@.len() as int) =~= v@);
    m
}

impl FiberTypeProcessor {
    /// Replaces the open fibers and the logical clock by those of a
    /// checkpoint, rebuilding the key index.
    pub fn restore_from_checkpoint(&mut self, checkpoint: &FiberProcessorCheckpoint)
        requires
            old(self).wf(),
        ensures
            final(self).ft() == old(self).ft(),
            final(self).version() == old(self).version(),
            final(self).clock() == Some(checkpoint.logical_clock),
            final(self).fibers() == restored_fibers(checkpoint.open_fibers@, old(self).ft().name@),
            final(self).index() == restored_index(checkpoint.open_fibers@),
            checkpoint_in_range(*checkpoint) && checkpoint_consistent(*checkpoint) ==> final(self).wf(),
    {
        let ghost cs = checkpoint.open_fibers@;
        let ghost ok = checkpoint_in_range(*checkpoint) && checkpoint_consistent(*checkpoint);
        let ghost name = self.fiber_type.name@;
        self.open_fibers = AssocMap::new();
        self.key_index = AssocMap::new();
        self.logical_clock = Some(checkpoint.logical_clock);
        let mut j: usize = 0;
        while j < checkpoint.open_fibers.len()
            invariant
                j <= cs.len(),
                cs == checkpoint.open_fibers@,
                ok == (checkpoint_in_range(*checkpoint) && checkpoint_consistent(*checkpoint)),
                name == self.fiber_type.name@,
                self.fiber_type == old(self).fiber_type,
                self.config_version == old(self).config_version,
                self.logical_clock == Some(checkpoint.logical_clock),
                runnable(self.fiber_type),
                self.open_fibers.wf(),
                self.key_index.wf(),
                self.fibers() == restored_fibers(cs.take(j as int), name),
                self.index() == restored_index(cs.take(j as int)),
                ok ==> self.open_fibers.seq().len() == j,
                ok ==> forall|q: int| 0 <= q < self.open_fibers.seq().len() ==> #[trigger] fiber_entry_ok(self.open_fibers.seq()[q]),
                ok ==> forall|q: int| 0 <= q < self.open_fibers.seq().len() ==> #[trigger] self.open_fibers.seq()[q].0 == cs[q].fiber_id,
                ok ==> keys_indexed(self.fibers(), self.index()),
            decreases cs.len() - j,
        {
            let c = &checkpoint.open_fibers[j];
            let ghost t = cs.take(j as int);
            let ghost t1 = cs.take(j as int + 1);
            assert(t1.drop_last() =~= t);
            assert(t1.last() == cs[j as int]);
            let keys = pairs_to_map(&c.keys);
            let attributes = attrs_to_map(&c.attributes);
            let fiber = OpenFiber {
                fiber_id: c.fiber_id,
                fiber_type: self.fiber_type.name.clone(),
                keys,
                attributes,
                first_activity: c.first_activity,
                last_activity: c.last_activity,
                log_ids: c.log_ids.clone(),
            };
            assert(fiber@ == restored_view(cs[j as int], name));
            let ghost ib = self.index();
            let ghost ks = fiber.keys.seq();
            proof {
                lemma_pairs_listed(ks);
            }
            let nk = fiber.keys.entries.len();
            let mut q: usize = 0;
            let ghost of1 = self.open_fibers;
            while q < nk
                invariant
                    nk == ks.len(),
                    ks == fiber.keys.seq(),
                    q <= nk,
                    self.open_fibers == of1,
                    self.fiber_type == old(self).fiber_type,
                    self.config_version == old(self).config_version,
                    self.logical_clock == Some(checkpoint.logical_clock),
                    self.key_index.wf(),
                    forall|p: KeyPair| #[trigger] self.key_index.map().dom().contains(p) <==>
                        (ib.dom().contains(p) || pair_listed(ks.take(q as int), p)),
                    forall|p: KeyPair| #[trigger] self.key_index.map().dom().contains(p) ==>
                        self.key_index.map()[p] == if pair_listed(ks.take(q as int), p) { c.fiber_id } else { ib[p] },
                decreases nk - q,
            {
                let e = &fiber.keys.entries[q];
                self.key_index.insert((e.0.clone(), e.1.clone()), c.fiber_id);
                proof {
                    let u1 = ks.take(q as int + 1);
                    assert forall|p: KeyPair| #[trigger] pair_listed(u1, p) <==> (pair_listed(ks.take(q as int), p) || (p.0 == ks[q as int].0@ && p.1 == ks[q as int].1@)) by {
                        if pair_listed(u1, p) {
                            let jj = choose|jj: int| 0 <= jj < u1.len() && #[trigger] u1[jj].0@ == p.0 && u1[jj].1@ == p.1;
                            if jj < q {
                                assert(ks.take(q as int)[jj] == u1[jj]);
                            }
                        }
                        if pair_listed(ks.take(q as int), p) {
                            let jj = choose|jj: int| 0 <= jj < ks.take(q as int).len() && #[trigger] ks.take(q as int)[jj].0@ == p.0 && ks.take(q as int)[jj].1@ == p.1;
                            assert(u1[jj] == ks.take(q as int)[jj]);
                        }
                        if p.0 == ks[q as int].0@ && p.1 == ks[q as int].1@ {
                            assert(u1[q as int] == ks[q as int]);
                        }
                    }
                }
                q += 1;
            }
            assert(ks.take(nk as int) =~= ks);
            proof {
                assert(self.index() =~= restored_index(t1)) by {
                    assert forall|p: KeyPair| #[trigger] pair_listed(ks, p) <==> is_key_pair(to_map(cs[j as int].keys@), p) by {}
                }
            }
            let ghost s0 = self.open_fibers.seq();
            let ghost fb = self.fibers();
            let fid = c.fiber_id;
            self.open_fibers.insert(fid, fiber);
            proof {
                assert(self.fibers() =~= restored_fibers(t1, name));
                if ok {
                    assert(!has_key(s0, fid)) by {
                        if has_key(s0, fid) {
                            let w = choose|w: int| 0 <= w < s0.len() && #[trigger] s0[w].0@ == fid;
                            assert(s0[w].0 == cs[w].fiber_id);
                            assert(cs[w].fiber_id != cs[j as int].fiber_id);
                        }
                    }
                    let s1 = self.open_fibers.seq();
                    assert(s1 == s0.push((fid, fiber)));
                    assert(valid_timestamp(cs[j as int].first_activity) && valid_timestamp(cs[j as int].last_activity));
                    assert forall|qq: int| 0 <= qq < s1.len() implies #[trigger] fiber_entry_ok(s1[qq]) && s1[qq].0 == cs[qq].fiber_id by {
                        if qq < s0.len() {
                            assert(s1[qq] == s0[qq]);
                        }
                    }
                    assert forall|qq: int| 0 <= qq < s1.len() implies #[trigger] s1[qq].0 == cs[qq].fiber_id by {
                        if qq < s0.len() {
                            assert(s1[qq] == s0[qq]);
                        }
                    }
                    // keys of earlier fibers are not shared with the new one
                    let f1 = self.fibers();
                    let i1 = self.index();
                    assert forall|g: u128, k: Seq<char>| f1.dom().contains(g) && #[trigger] f1[g].keys.dom().contains(k)
                        implies i1.dom().contains((k, f1[g].keys[k])) && i1[(k, f1[g].keys[k])] == g by {
                        let p = (k, f1[g].keys[k]);
                        if g == fid {
                            assert(is_key_pair(to_map(cs[j as int].keys@), p));
                            assert(pair_listed(ks, p));
                        } else {
                            assert(fb.dom().contains(g) && fb[g] == f1[g]);
                            assert(fb[g].keys.dom().contains(k));
                            assert(ib.dom().contains(p) && ib[p] == g);
                            if pair_listed(ks, p) {
                                // g is an earlier entry, whose key pairs are not the new one's
                                lemma_restored_dom(t, name, g);
                                let w = choose|w: int| 0 <= w < t.len() && #[trigger] t[w].fiber_id == g;
                                lemma_restored_at(t, name, w);
                                assert(t[w] == cs[w]);
                                assert(is_key_pair(to_map(cs[w].keys@), p));
                                assert(is_key_pair(to_map(cs[j as int].keys@), p));
                                assert(cs[w].fiber_id != cs[j as int].fiber_id);
                            }
                        }
                    }
                }
            }
            j += 1;
        }
        assert(cs.take(cs.len() as int) =~= cs);
    }
}


// ---------------------------------------------------------------------------
// All fiber types together
// ---------------------------------------------------------------------------

/// Processors of every fiber type, each under its fiber type's name.
pub struct FiberProcessor {
    processors: Vec<(String, FiberTypeProcessor)>,
}

/// The names, each once, in order of first appearance.
pub open spec fn distinct_names(s: Seq<Seq<char>>) -> Seq<Seq<char>>
    decreases s.len(),
{
    if s.len() == 0 {
        Seq::empty()
    } else {
        let r = distinct_names(s.drop_last());
        if r.contains(s.last()) { r } else { r.push(s.last()) }
    }
}

/// The last fiber type configuration with the name.
pub open spec fn last_config(fts: Seq<(String, FiberTypeConfig)>, name: Seq<char>) -> FiberTypeConfig
    recommends
        entry_names(fts).contains(name),
    decreases fts.len(),
{
    if fts.len() == 0 {
        arbitrary()
    } else if fts.last().0@ == name {
        fts.last().1
    } else {
        last_config(fts.drop_last(), name)
    }
}

/// The first fiber type, from position `i` on, that does not compile, with
/// what is wrong with it.
pub open spec fn first_type_issue(fts: Seq<(String, FiberTypeConfig)>, i: int) -> Option<RuleIssue>
    decreases fts.len() - i,
{
    if i < 0 || i >= fts.len() {
        None
    } else {
        match fiber_type_issue(fts[i].1) {
            Some(x) => Some(x),
            None => first_type_issue(fts, i + 1),
        }
    }
}

/// The longest gap of every fiber type converts to a time delta.
pub open spec fn gaps_in_range(fts: Seq<(String, FiberTypeConfig)>) -> bool {
    forall|i: int| 0 <= i < fts.len() ==> ((#[trigger] fts[i]).1.temporal.max_gap matches Some(g) ==> valid_delta(g))
}

/// The processor runs the fiber type compiled from the configuration, and
/// has no open fibers.
pub open spec fn fresh_processor(p: FiberTypeProcessor, name: Seq<char>, c: FiberTypeConfig, version: u64) -> bool {
    &&& p.wf()
    &&& fiber_type_compiled(p.ft(), name, c)
    &&& p.version() == version
    &&& p.fibers() == Map::<u128, FiberView>::empty()
    &&& p.index() == Map::<KeyPair, u128>::empty()
    &&& p.clock() is None
}

pub open spec fn sum_open(ps: Seq<FiberTypeProcessor>) -> int
    decreases ps.len(),
{
    if ps.len() == 0 { 0 } else { sum_open(ps.drop_last()) + ps.last().fibers().dom().len() }
}

impl FiberProcessor {
    /// The fiber type names, in order.
    pub closed spec fn names(&self) -> Seq<Seq<char>> {
        entry_names(self.processors@)
    }

    /// The processors, in the order of the names.
    pub closed spec fn procs(&self) -> Seq<FiberTypeProcessor> {
        self.processors@.map_values(|e: (String, FiberTypeProcessor)| e.1)
    }

    pub closed spec fn wf(&self) -> bool {
        &&& self.names().no_duplicates()
        &&& forall|i: int| 0 <= i < self.processors@.len() ==> (#[trigger] self.processors@[i]).1.wf()
    }

    proof fn lemma_views(&self)
        ensures
            self.names().len() == self.processors@.len(),
            self.procs().len() == self.processors@.len(),
            forall|i: int| 0 <= i < self.processors@.len() ==> #[trigger] self.names()[i] == self.processors@[i].0@
                && self.procs()[i] == self.processors@[i].1,
    {
    }

    fn position(&self, name: &str) -> (r: Option<usize>)
        ensures
            match r {
                Some(i) => i < self.names().len() && self.names()[i as int] == name@,
                None => !self.names().contains(name@),
            },
    {
        proof {
            self.lemma_views();
        }
        let target = name.to_string();
        let mut i: usize = 0;
        while i < self.processors.len()
            invariant
                i <= self.processors@.len(),
                target@ == name@,
                forall|q: int| 0 <= q < i ==> self.processors@[q].0@ != name@,
            decreases self.processors@.len() - i,
        {
            if self.processors[i].0 == target {
                proof { self.lemma_views(); }
                return Some(i);
            }
            i += 1;
        }
        proof {
            self.lemma_views();
            if self.names().contains(name@) {
                let q = choose|q: int| 0 <= q < self.names().len() && self.names()[q] == name@;
                assert(self.processors@[q].0@ == name@);
            }
        }
        None
    }

    /// Compiles every configured fiber type, failing on the first one that
    /// does not compile. A later fiber type of a repeated name replaces an
    /// earlier one in place.
    pub fn from_config(config: &Config, config_version: u64) -> (r: Result<FiberProcessor, RuleError>)
        requires
            gaps_in_range(config.fiber_types@),
        ensures
            match r {
                Ok(fp) => {
                    &&& first_type_issue(config.fiber_types@, 0) is None
                    &&& fp.wf()
                    &&& fp.names() == distinct_names(entry_names(config.fiber_types@))
                    &&& forall|i: int| 0 <= i < fp.names().len() ==> fresh_processor(#[trigger] fp.procs()[i], fp.names()[i],
                        last_config(config.fiber_types@, fp.names()[i]), config_version)
                },
                Err(e) => first_type_issue(config.fiber_types@, 0) == Some(issue_of(e)),
            },
    {
        let ghost fts = config.fiber_types@;
        let mut fp = FiberProcessor { processors: Vec::new() };
        let mut i: usize = 0;
        while i < config.fiber_types.len()
            invariant
                i <= fts.len(),
                fts == config.fiber_types@,
                gaps_in_range(fts),
                fp.wf(),
                first_type_issue(fts, 0) == first_type_issue(fts, i as int),
                fp.names() == distinct_names(entry_names(fts.take(i as int))),
                forall|q: int| 0 <= q < fp.names().len() ==> fresh_processor(#[trigger] fp.procs()[q], fp.names()[q],
                    last_config(fts.take(i as int), fp.names()[q]), config_version),
            decreases fts.len() - i,
        {
            let e = &config.fiber_types[i];
            let ghost t = fts.take(i as int);
            let ghost t1 = fts.take(i as int + 1);
            assert(t1.drop_last() =~= t);
            assert(t1.last() == fts[i as int]);
            assert(entry_names(t1) =~= entry_names(t).push(e.0@));
            assert(entry_names(t).push(e.0@).drop_last() =~= entry_names(t));
            let compiled = match CompiledFiberType::from_config(e.0.as_str(), &e.1) {
                Ok(c) => c,
                Err(err) => {
                    return Err(err);
                },
            };
            assert(fts[i as int].1.temporal.max_gap matches Some(g) ==> valid_delta(g));
            let processor = FiberTypeProcessor::new(compiled, config_version);
            let ghost before = fp;
            proof { before.lemma_views(); }
            match fp.position(e.0.as_str()) {
                Some(k) => {
                    let name = e.0.clone();
                    fp.processors.set(k, (name, processor));
                    proof {
                        fp.lemma_views();
                        assert(fp.names() =~= before.names());
                        assert(before.names().contains(e.0@));
                        assert(distinct_names(entry_names(t1)) == distinct_names(entry_names(t)));
                        assert forall|q: int| 0 <= q < fp.names().len() implies fresh_processor(#[trigger] fp.procs()[q], fp.names()[q],
                            last_config(t1, fp.names()[q]), config_version) by {
                            if q != k {
                                assert(fp.processors@[q] == before.processors@[q]);
                                assert(before.names()[q] != e.0@);
                            }
                        }
                    }
                },
                None => {
                    let name = e.0.clone();
                    fp.processors.push((name, processor));
                    proof {
                        fp.lemma_views();
                        assert(fp.names() =~= before.names().push(e.0@));
                        assert(distinct_names(entry_names(t1)) == before.names().push(e.0@));
                        assert forall|q: int| 0 <= q < fp.names().len() implies fresh_processor(#[trigger] fp.procs()[q], fp.names()[q],
                            last_config(t1, fp.names()[q]), config_version) by {
                            if q < before.names().len() {
                                assert(fp.processors@[q] == before.processors@[q]);
                                assert(before.names()[q] != e.0@);
                            }
                        }
                    }
                },
            }
            proof {
                fp.lemma_views();
                assert forall|q: int| 0 <= q < fp.processors@.len() implies (#[trigger] fp.processors@[q]).1.wf() by {
                    assert(fresh_processor(fp.procs()[q], fp.names()[q], last_config(t1, fp.names()[q]), config_version));
                }
            }
            i += 1;
        }
        assert(fts.take(fts.len() as int) =~= fts);
        Ok(fp)
    }
}


/// The last checkpoint saved under the name.
pub open spec fn last_checkpoint(cps: Seq<(String, FiberProcessorCheckpoint)>, name: Seq<char>) -> Option<FiberProcessorCheckpoint>
    decreases cps.len(),
{
    if cps.len() == 0 {
        None
    } else if cps.last().0@ == name {
        Some(cps.last().1)
    } else {
        last_checkpoint(cps.drop_last(), name)
    }
}

/// A pattern of the fiber type for the source matches the text.
pub open spec fn log_matches(ft: CompiledFiberType, source: Seq<char>, text: Seq<char>) -> bool {
    let pm = ft.source_patterns.map();
    pm.dom().contains(source) && match_from(pm[source], text, 0) is Some
}

/// The memberships that processing a log with a fiber type reports: the log
/// joins one fiber where a pattern matches, and none otherwise.
pub open spec fn reports_membership(r: ProcessResult, ft: CompiledFiberType, log_id: u128, source: Seq<char>, text: Seq<char>) -> bool {
    &&& log_matches(ft, source, text) ==> r.memberships@.len() == 1 && r.memberships@[0].log_id == log_id
    &&& !log_matches(ft, source, text) ==> r.memberships@.len() == 0
}

impl FiberProcessor {
    /// The fiber types of the processors, in order.
    pub open spec fn fiber_types(&self) -> Seq<CompiledFiberType> {
        self.procs().map_values(|p: FiberTypeProcessor| p.ft())
    }

    /// Processes a log with every fiber type, in order.
    pub fn process_log(&mut self, log: &LogRecord) -> (r: Vec<ProcessResult>)
        requires
            old(self).wf(),
            valid_timestamp(log.timestamp),
        ensures
            final(self).wf(),
            final(self).names() == old(self).names(),
            r@.len() == old(self).names().len(),
            final(self).fiber_types() == old(self).fiber_types(),
            r@.len() == old(self).fiber_types().len(),
            forall|i: int| 0 <= i < r@.len() ==> {
                &&& (#[trigger] final(self).procs()[i]).ft() == old(self).procs()[i].ft()
                &&& final(self).procs()[i].clock() == Some(log.timestamp)
                &&& none_timed_out(final(self).procs()[i].fibers(), log.timestamp, old(self).procs()[i].ft())
                &&& r@[i].memberships@.len() <= 1
                &&& r@[i].new_fibers@.len() <= 1
                &&& reports_membership(r@[i], old(self).procs()[i].ft(), log.id, log.source_id@, log.raw_text@)
                &&& type_log_effect(old(self).procs()[i], final(self).procs()[i], r@[i], *log)
                &&& index_exact(old(self).procs()[i].fibers(), old(self).procs()[i].index())
                    ==> index_exact(final(self).procs()[i].fibers(), final(self).procs()[i].index())
            },
    {
        proof { self.lemma_views(); }
        let mut out: Vec<ProcessResult> = Vec::new();
        let n = self.processors.len();
        let mut i: usize = 0;
        while i < n
            invariant
                n == self.processors@.len(),
                n == old(self).processors@.len(),
                i <= n,
                out@.len() == i,
                self.names() == old(self).names(),
                self.wf(),
                valid_timestamp(log.timestamp),
                forall|q: int| i <= q < n ==> self.processors@[q] == old(self).processors@[q],
                forall|q: int| 0 <= q < i ==> {
                    &&& (#[trigger] self.processors@[q]).1.ft() == old(self).processors@[q].1.ft()
                    &&& self.processors@[q].1.clock() == Some(log.timestamp)
                    &&& none_timed_out(self.processors@[q].1.fibers(), log.timestamp, old(self).processors@[q].1.ft())
                    &&& out@[q].memberships@.len() <= 1
                    &&& out@[q].new_fibers@.len() <= 1
                    &&& reports_membership(out@[q], old(self).processors@[q].1.ft(), log.id, log.source_id@, log.raw_text@)
                    &&& type_log_effect(old(self).processors@[q].1, self.processors@[q].1, out@[q], *log)
                    &&& index_exact(old(self).processors@[q].1.fibers(), old(self).processors@[q].1.index())
                        ==> index_exact(self.processors@[q].1.fibers(), self.processors@[q].1.index())
                },
            decreases n - i,
        {
            let ghost before = self.processors@;
            let (name, mut p) = self.processors.remove(i);
            assert(p.wf()) by {
                assert(before[i as int].1.wf());
            }
            let res = p.process_log(log);
            self.processors.insert(i, (name, p));
            out.push(res);
            proof {
                assert(self.processors@ == before.update(i as int, self.processors@[i as int]));
                assert(self.names() =~= old(self).names()) by {
                    assert forall|q: int| 0 <= q < n implies self.names()[q] == old(self).names()[q] by {
                        if q != i {
                            assert(self.processors@[q] == before[q]);
                        }
                    }
                }
                assert forall|q: int| 0 <= q < self.processors@.len() implies (#[trigger] self.processors@[q]).1.wf() by {
                    if q != i {
                        assert(self.processors@[q] == before[q]);
                    }
                }
                assert forall|q: int| 0 <= q < i + 1 implies {
                    &&& (#[trigger] self.processors@[q]).1.ft() == old(self).processors@[q].1.ft()
                    &&& self.processors@[q].1.clock() == Some(log.timestamp)
                    &&& none_timed_out(self.processors@[q].1.fibers(), log.timestamp, old(self).processors@[q].1.ft())
                    &&& out@[q].memberships@.len() <= 1
                    &&& out@[q].new_fibers@.len() <= 1
                    &&& reports_membership(out@[q], old(self).processors@[q].1.ft(), log.id, log.source_id@, log.raw_text@)
                    &&& type_log_effect(old(self).processors@[q].1, self.processors@[q].1, out@[q], *log)
                    &&& index_exact(old(self).processors@[q].1.fibers(), old(self).processors@[q].1.index())
                        ==> index_exact(self.processors@[q].1.fibers(), self.processors@[q].1.index())
                } by {
                    if q < i {
                        assert(self.processors@[q] == before[q]);
                    }
                }
            }
            i += 1;
        }
        proof {
            self.lemma_views();
            old(self).lemma_views();
            assert(self.fiber_types() =~= old(self).fiber_types()) by {
                assert forall|q: int| 0 <= q < n implies self.fiber_types()[q] == old(self).fiber_types()[q] by {
                    assert(self.processors@[q].1.ft() == old(self).processors@[q].1.ft());
                }
            }
        }
        out
    }

    /// The number of open fibers across all fiber types (saturating).
    pub fn total_open_fibers(&self) -> (n: usize)
        requires
            self.wf(),
        ensures
            n == if sum_open(self.procs()) <= usize::MAX { sum_open(self.procs()) } else { usize::MAX as int },
    {
        proof { self.lemma_views(); }
        let mut total: usize = 0;
        let mut i: usize = 0;
        while i < self.processors.len()
            invariant
                i <= self.processors@.len(),
                self.wf(),
                self.procs().len() == self.processors@.len(),
                forall|q: int| 0 <= q < self.processors@.len() ==> #[trigger] self.procs()[q] == self.processors@[q].1,
                total == if sum_open(self.procs().take(i as int)) <= usize::MAX { sum_open(self.procs().take(i as int)) } else { usize::MAX as int },
            decreases self.processors@.len() - i,
        {
            assert(self.procs().take(i as int + 1).drop_last() =~= self.procs().take(i as int));
            assert(self.processors@[i as int].1.wf());
            let c = self.processors[i].1.open_fiber_count();
            total = total.saturating_add(c);
            i += 1;
        }
        assert(self.procs().take(self.processors@.len() as int) =~= self.procs());
        total
    }

    /// The processor of a fiber type.
    pub fn get_processor(&self, fiber_type: &str) -> (r: Option<&FiberTypeProcessor>)
        ensures
            match r {
                Some(p) => exists|i: int| 0 <= i < self.names().len() && self.names()[i] == fiber_type@ && self.procs()[i] == *p,
                None => !self.names().contains(fiber_type@),
            },
    {
        proof { self.lemma_views(); }
        match self.position(fiber_type) {
            Some(i) => Some(&self.processors[i].1),
            None => None,
        }
    }

    /// Whether some fiber type has patterns for the source.
    pub fn has_processor_for_source(&self, source_id: &str) -> (b: bool)
        requires
            self.wf(),
        ensures
            b == exists|i: int| 0 <= i < self.procs().len()
                && (#[trigger] self.procs()[i]).ft().source_patterns.map().dom().contains(source_id@),
    {
        proof { self.lemma_views(); }
        let key = source_id.to_string();
        let mut i: usize = 0;
        while i < self.processors.len()
            invariant
                i <= self.processors@.len(),
                key@ == source_id@,
                self.procs().len() == self.processors@.len(),
                forall|q: int| 0 <= q < self.processors@.len() ==> #[trigger] self.procs()[q] == self.processors@[q].1,
                forall|q: int| 0 <= q < i ==> !(#[trigger] self.procs()[q]).ft().source_patterns.map().dom().contains(source_id@),
                self.wf(),
            decreases self.processors@.len() - i,
        {
            let ft = &self.processors[i].1.fiber_type;
            assert(self.processors@[i as int].1.wf());
            if ft.source_patterns.contains_key(&key) {
                assert(self.procs()[i as int].ft() == *ft);
                return true;
            }
            assert(self.procs()[i as int].ft() == *ft);
            i += 1;
        }
        false
    }

    /// The names of the fiber types, in order.
    pub fn fiber_type_names(&self) -> (v: Vec<String>)
        ensures
            string_views(v@) == self.names(),
    {
        proof { self.lemma_views(); }
        let mut v: Vec<String> = Vec::new();
        let mut i: usize = 0;
        while i < self.processors.len()
            invariant
                i <= self.processors@.len(),
                self.names().len() == self.processors@.len(),
                forall|q: int| 0 <= q < self.processors@.len() ==> #[trigger] self.names()[q] == self.processors@[q].0@,
                string_views(v@) == self.names().take(i as int),
            decreases self.processors@.len() - i,
        {
            let ghost v0 = v@;
            let c = self.processors[i].0.clone();
            v.push(c);
            proof { crate::text::lemma_string_views_push(v0, c); }
            assert(string_views(v@) =~= self.names().take(i as int + 1));
            i += 1;
        }
        assert(self.names().take(self.processors@.len() as int) =~= self.names());
        v
    }
}


impl FiberProcessor {
    /// Closes the open fibers of every fiber type, in order.
    pub fn flush(&mut self) -> (r: Vec<ProcessResult>)
        requires
            old(self).wf(),
        ensures
            final(self).wf(),
            final(self).names() == old(self).names(),
            r@.len() == old(self).names().len(),
            forall|i: int| 0 <= i < r@.len() ==> {
                &&& (#[trigger] final(self).procs()[i]).ft() == old(self).procs()[i].ft()
                &&& final(self).procs()[i].fibers() == Map::<u128, FiberView>::empty()
                &&& r@[i].closed_fiber_ids@.to_set() == old(self).procs()[i].fibers().dom()
                &&& r@[i].closed_fiber_ids@.no_duplicates()
            },
    {
        proof { self.lemma_views(); old(self).lemma_views(); }
        let mut out: Vec<ProcessResult> = Vec::new();
        let n = self.processors.len();
        let mut i: usize = 0;
        while i < n
            invariant
                n == self.processors@.len(),
                n == old(self).processors@.len(),
                i <= n,
                out@.len() == i,
                self.names() == old(self).names(),
                self.wf(),
                forall|q: int| i <= q < n ==> self.processors@[q] == old(self).processors@[q],
                forall|q: int| 0 <= q < i ==> {
                    &&& (#[trigger] self.processors@[q]).1.ft() == old(self).processors@[q].1.ft()
                    &&& self.processors@[q].1.fibers() == Map::<u128, FiberView>::empty()
                    &&& out@[q].closed_fiber_ids@.to_set() == old(self).processors@[q].1.fibers().dom()
                    &&& out@[q].closed_fiber_ids@.no_duplicates()
                },
            decreases n - i,
        {
            let ghost before = self.processors@;
            let (name, mut p) = self.processors.remove(i);
            assert(p.wf()) by {
                assert(before[i as int].1.wf());
            }
            let res = p.flush();
            self.processors.insert(i, (name, p));
            out.push(res);
            proof {
                assert(self.processors@ == before.update(i as int, self.processors@[i as int]));
                assert(self.names() =~= old(self).names()) by {
                    assert forall|q: int| 0 <= q < n implies self.names()[q] == old(self).names()[q] by {
                        if q != i {
                            assert(self.processors@[q] == before[q]);
                        }
                    }
                }
                assert forall|q: int| 0 <= q < self.processors@.len() implies (#[trigger] self.processors@[q]).1.wf() by {
                    if q != i {
                        assert(self.processors@[q] == before[q]);
                    }
                }
                assert forall|q: int| 0 <= q < i + 1 implies {
                    &&& (#[trigger] self.processors@[q]).1.ft() == old(self).processors@[q].1.ft()
                    &&& self.processors@[q].1.fibers() == Map::<u128, FiberView>::empty()
                    &&& out@[q].closed_fiber_ids@.to_set() == old(self).processors@[q].1.fibers().dom()
                    &&& out@[q].closed_fiber_ids@.no_duplicates()
                } by {
                    if q < i {
                        assert(self.processors@[q] == before[q]);
                    }
                }
            }
            i += 1;
        }
        proof { self.lemma_views(); }
        out
    }

    /// A checkpoint of every fiber type, under its name.
    pub fn create_checkpoint(&self) -> (r: Vec<(String, FiberProcessorCheckpoint)>)
        requires
            self.wf(),
        ensures
            entry_names(r@) == self.names(),
            forall|i: int| 0 <= i < r@.len() ==> (self.procs()[i].clock() matches Some(t) ==> (#[trigger] r@[i]).1.logical_clock == t)
                && r@[i].1.open_fibers@.len() == self.procs()[i].fibers().dom().len(),
    {
        proof { self.lemma_views(); }
        let mut out: Vec<(String, FiberProcessorCheckpoint)> = Vec::new();
        let mut i: usize = 0;
        while i < self.processors.len()
            invariant
                i <= self.processors@.len(),
                self.wf(),
                self.names().len() == self.processors@.len(),
                self.procs().len() == self.processors@.len(),
                forall|q: int| 0 <= q < self.processors@.len() ==> #[trigger] self.names()[q] == self.processors@[q].0@
                    && self.procs()[q] == self.processors@[q].1,
                out@.len() == i,
                entry_names(out@) == self.names().take(i as int),
                forall|q: int| 0 <= q < i ==> (self.procs()[q].clock() matches Some(t) ==> (#[trigger] out@[q]).1.logical_clock == t)
                    && out@[q].1.open_fibers@.len() == self.procs()[q].fibers().dom().len(),
            decreases self.processors@.len() - i,
        {
            assert(self.processors@[i as int].1.wf());
            let cp = self.processors[i].1.create_checkpoint();
            let ghost o0 = out@;
            out.push((self.processors[i].0.clone(), cp));
            assert(entry_names(out@) =~= entry_names(o0).push(self.names()[i as int]));
            assert(entry_names(out@) =~= self.names().take(i as int + 1));
            i += 1;
        }
        assert(self.names().take(self.processors@.len() as int) =~= self.names());
        out
    }

    /// Adds the generated fiber type of a source, unless a fiber type of
    /// that name exists (`Ok(false)`).
    pub fn add_source_fiber_type(&mut self, source_id: &str, config_version: u64) -> (r: Result<bool, RuleError>)
        requires
            old(self).wf(),
        ensures
            final(self).wf(),
            old(self).names().contains(source_id@) ==> (r matches Ok(b) && !b && *final(self) == *old(self)),
            !old(self).names().contains(source_id@) ==> match r {
                Ok(b) => b && final(self).names() == old(self).names().push(source_id@)
                    && final(self).procs().take(old(self).procs().len() as int) == old(self).procs()
                    && exists|c: FiberTypeConfig| #[trigger] is_auto_source_config(c, source_id@)
                        && fresh_processor(final(self).procs().last(), source_id@, c, config_version),
                Err(e) => *final(self) == *old(self) && exists|c: FiberTypeConfig| #[trigger] is_auto_source_config(c, source_id@)
                    && fiber_type_issue(c) == Some(issue_of(e)),
            },
    {
        proof { self.lemma_views(); }
        match self.position(source_id) {
            Some(_) => {
                return Ok(false);
            },
            None => {},
        }
        let config = create_auto_source_fiber_config(source_id);
        let compiled = match CompiledFiberType::from_config(source_id, &config) {
            Ok(c) => c,
            Err(e) => {
                assert(is_auto_source_config(config, source_id@));
                return Err(e);
            },
        };
        assert(is_auto_source_config(config, source_id@));
        let processor = FiberTypeProcessor::new(compiled, config_version);
        let ghost before = self.processors@;
        self.processors.push((source_id.to_string(), processor));
        proof {
            self.lemma_views();
            assert(self.names() =~= old(self).names().push(source_id@));
            assert(self.procs().take(old(self).procs().len() as int) =~= old(self).procs());
            assert forall|q: int| 0 <= q < self.processors@.len() implies (#[trigger] self.processors@[q]).1.wf() by {
                if q < before.len() {
                    assert(self.processors@[q] == before[q]);
                }
            }
        }
        Ok(true)
    }
}


/// The processor is `before` restored from the checkpoint, if there is one.
pub open spec fn restored_from(after: FiberTypeProcessor, before: FiberTypeProcessor, cp: Option<FiberProcessorCheckpoint>) -> bool {
    match cp {
        Some(c) => {
            &&& after.ft() == before.ft()
            &&& after.version() == before.version()
            &&& after.clock() == Some(c.logical_clock)
            &&& after.fibers() == restored_fibers(c.open_fibers@, before.ft().name@)
            &&& after.index() == restored_index(c.open_fibers@)
            &&& (checkpoint_in_range(c) && checkpoint_consistent(c) ==> after.wf())
        },
        None => after == before,
    }
}

/// Every checkpoint can be restored into a consistent processor.
pub open spec fn checkpoints_sound(cps: Seq<(String, FiberProcessorCheckpoint)>) -> bool {
    forall|i: int| 0 <= i < cps.len() ==> checkpoint_in_range((#[trigger] cps[i]).1) && checkpoint_consistent(cps[i].1)
}

impl FiberProcessor {
    /// Restores each fiber type that has a checkpoint (the last one under
    /// its name); checkpoints of unknown fiber types are skipped.
    pub fn restore_from_checkpoint(&mut self, checkpoints: &Vec<(String, FiberProcessorCheckpoint)>)
        requires
            old(self).wf(),
            checkpoints_sound(checkpoints@),
        ensures
            final(self).wf(),
            final(self).names() == old(self).names(),
            final(self).procs().len() == old(self).procs().len(),
            forall|i: int| 0 <= i < old(self).procs().len() ==> restored_from(#[trigger] final(self).procs()[i], old(self).procs()[i],
                last_checkpoint(checkpoints@, old(self).names()[i])),
    {
        let ghost cps = checkpoints@;
        proof { self.lemma_views(); old(self).lemma_views(); }
        let mut j: usize = 0;
        while j < checkpoints.len()
            invariant
                j <= cps.len(),
                cps == checkpoints@,
                checkpoints_sound(cps),
                self.wf(),
                self.names() == old(self).names(),
                self.processors@.len() == old(self).processors@.len(),
                forall|i: int| 0 <= i < self.processors@.len() ==> restored_from(#[trigger] self.processors@[i].1, old(self).processors@[i].1,
                    last_checkpoint(cps.take(j as int), old(self).names()[i])),
            decreases cps.len() - j,
        {
            let ghost t1 = cps.take(j as int + 1);
            assert(t1.drop_last() =~= cps.take(j as int));
            assert(t1.last() == cps[j as int]);
            let e = &checkpoints[j];
            let ghost before = self.processors@;
            proof { self.lemma_views(); }
            match self.position(e.0.as_str()) {
                Some(k) => {
                    let (name, mut p) = self.processors.remove(k);
                    assert(p.wf()) by { assert(before[k as int].1.wf()); }
                    p.restore_from_checkpoint(&e.1);
                    self.processors.insert(k, (name, p));
                    proof {
                        assert(self.processors@ == before.update(k as int, self.processors@[k as int]));
                        self.lemma_views();
                        assert(self.names() =~= old(self).names()) by {
                            assert forall|q: int| 0 <= q < before.len() implies self.names()[q] == old(self).names()[q] by {
                                if q != k { assert(self.processors@[q] == before[q]); }
                            }
                        }
                        assert(checkpoint_in_range(cps[j as int].1) && checkpoint_consistent(cps[j as int].1));
                        assert forall|q: int| 0 <= q < self.processors@.len() implies (#[trigger] self.processors@[q]).1.wf() by {
                            if q != k { assert(self.processors@[q] == before[q]); }
                        }
                        assert forall|i: int| 0 <= i < self.processors@.len() implies restored_from(#[trigger] self.processors@[i].1, old(self).processors@[i].1,
                            last_checkpoint(t1, old(self).names()[i])) by {
                            if i != k {
                                assert(self.processors@[i] == before[i]);
                                assert(old(self).names()[i] != e.0@) by {
                                    assert(old(self).names().no_duplicates());
                                }
                            } else {
                                assert(last_checkpoint(t1, old(self).names()[i]) == Some(e.1));
                                let pb = before[k as int].1;
                                let po = old(self).processors@[k as int].1;
                                assert(pb.ft() == po.ft());
                            }
                        }
                    }
                },
                None => {
                    proof {
                        assert forall|i: int| 0 <= i < self.processors@.len() implies restored_from(#[trigger] self.processors@[i].1, old(self).processors@[i].1,
                            last_checkpoint(t1, old(self).names()[i])) by {
                            assert(old(self).names()[i] != e.0@) by {
                                assert(self.names()[i] == old(self).names()[i]);
                            }
                        }
                    }
                },
            }
            j += 1;
        }
        assert(cps.take(cps.len() as int) =~= cps);
        proof { self.lemma_views(); }
    }
}


impl FiberProcessor {
    /// The processor of a fiber type, for changing it in place.
    pub fn get_processor_mut(&mut self, fiber_type: &str) -> (r: Option<&mut FiberTypeProcessor>)
        ensures
            match r {
                Some(p) => exists|i: int| 0 <= i < old(self).names().len() && old(self).names()[i] == fiber_type@
                    && *p == old(self).procs()[i]
                    && final(self).names() == old(self).names()
                    && final(self).procs() == old(self).procs().update(i, *final(p)),
                None => !old(self).names().contains(fiber_type@) && *final(self) == *old(self),
            },
    {
        proof { self.lemma_views(); }
        match self.position(fiber_type) {
            Some(i) => {
                Some(&mut self.processors[i].1)
            },
            None => None,
        }
    }
}

} // verus!

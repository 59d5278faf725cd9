use vstd::prelude::*;
use crate::fiber::processor::{
    FiberTypeProcessor, KeyPair, PatternMatch, PeerState, Stage, ProcessResult, after_merge, after_peer_release, close_stage,
    drop_pairs, fresh_view, is_key_pair, join_stage, log_attributes, match_effect, matching_set, merge_fold,
    merge_index, merge_view, peer_release, peer_step, self_release_stage, timed_out_set, timeout_stage,
    unmatched_effect, updated_index, without,
};
use crate::fiber::session::FiberView;
use crate::source::reader::LogRecord;
use crate::text::string_views;

verus! {

/// Every entry of the index points to an open fiber that holds that key
/// with that value.
pub open spec fn index_exact(fibers: Map<u128, FiberView>, index: Map<KeyPair, u128>) -> bool {
    forall|p: KeyPair| #[trigger] index.dom().contains(p)
        ==> fibers.dom().contains(index[p]) && is_key_pair(fibers[index[p]].keys, p)
}

proof fn lemma_peer_step_exact(st: PeerState, k: Seq<char>, ex: Map<Seq<char>, Seq<char>>)
    requires
        index_exact(st.0, st.1),
    ensures
        index_exact(peer_step(st, k, ex).0, peer_step(st, k, ex).1),
        peer_step(st, k, ex).0.dom() == st.0.dom(),
{
    let s2 = peer_step(st, k, ex);
    if ex.dom().contains(k) && st.1.dom().contains((k, ex[k])) && st.0.dom().contains(st.1[(k, ex[k])]) {
        let fid = st.1[(k, ex[k])];
        assert(is_key_pair(st.0[fid].keys, (k, ex[k])));
        assert forall|p: KeyPair| #[trigger] s2.1.dom().contains(p)
            implies s2.0.dom().contains(s2.1[p]) && is_key_pair(s2.0[s2.1[p]].keys, p) by {
            let g = st.1[p];
            assert(st.1.dom().contains(p));
            assert(is_key_pair(st.0[g].keys, p));
            if g == fid && p.0 == k {
                assert(p == (k, ex[k]));
            }
        }
        assert(s2.0.dom() =~= st.0.dom());
    }
}

proof fn lemma_peer_release_exact(st: PeerState, keys: Seq<Seq<char>>, ex: Map<Seq<char>, Seq<char>>)
    requires
        index_exact(st.0, st.1),
    ensures
        index_exact(peer_release(st, keys, ex).0, peer_release(st, keys, ex).1),
        peer_release(st, keys, ex).0.dom() == st.0.dom(),
    decreases keys.len(),
{
    if keys.len() > 0 {
        lemma_peer_release_exact(st, keys.drop_last(), ex);
        lemma_peer_step_exact(peer_release(st, keys.drop_last(), ex), keys.last(), ex);
    }
}

/// Dropping fibers together with their key pairs keeps the index exact.
proof fn lemma_drop_exact(fibers: Map<u128, FiberView>, index: Map<KeyPair, u128>, gone: Set<u128>)
    requires
        index_exact(fibers, index),
    ensures
        index_exact(without(fibers, gone), drop_pairs(index, fibers, gone)),
{
    let f2 = without(fibers, gone);
    let i2 = drop_pairs(index, fibers, gone);
    assert forall|p: KeyPair| #[trigger] i2.dom().contains(p)
        implies f2.dom().contains(i2[p]) && is_key_pair(f2[i2[p]].keys, p) by {
        let g = index[p];
        assert(index.dom().contains(p));
        assert(is_key_pair(fibers[g].keys, p));
        if gone.contains(g) {
            assert(gone.contains(g) && fibers.dom().contains(g) && is_key_pair(fibers[g].keys, p));
        }
    }
}

proof fn lemma_close_exact(s: Stage, t: u128, close: bool)
    requires
        index_exact(s.0, s.1),
    ensures
        index_exact(close_stage(s, t, close).0, close_stage(s, t, close).1),
{
    if close && s.0.dom().contains(t) {
        lemma_drop_exact(s.0, s.1, set![t]);
        assert(s.0.remove(t) =~= without(s.0, set![t]));
    }
}

proof fn lemma_join_exact(
    s: Stage,
    t: u128,
    log: LogRecord,
    attrs: Map<Seq<char>, Seq<char>>,
    keys: Seq<Seq<char>>,
    defs: Seq<crate::fiber::rule::AttributeDef>,
)
    requires
        index_exact(s.0, s.1),
    ensures
        index_exact(join_stage(s, t, log, attrs, keys, defs).0, join_stage(s, t, log, attrs, keys, defs).1),
{
    if s.0.dom().contains(t) {
        let s3 = join_stage(s, t, log, attrs, keys, defs);
        let fk = s.0[t].keys;
        let ka = crate::fiber::processor::key_attrs(attrs, keys);
        assert forall|p: KeyPair| #[trigger] s3.1.dom().contains(p)
            implies s3.0.dom().contains(s3.1[p]) && is_key_pair(s3.0[s3.1[p]].keys, p) by {
            if !is_key_pair(ka, p) {
                assert(s.1.dom().contains(p));
                let g = s.1[p];
                assert(is_key_pair(s.0[g].keys, p));
            }
        }
    }
}

proof fn lemma_self_release_exact(s: Stage, t: u128, names: Seq<Seq<char>>)
    requires
        index_exact(s.0, s.1),
    ensures
        index_exact(self_release_stage(s, t, names).0, self_release_stage(s, t, names).1),
{
    if s.0.dom().contains(t) {
        let s4 = self_release_stage(s, t, names);
        assert forall|p: KeyPair| #[trigger] s4.1.dom().contains(p)
            implies s4.0.dom().contains(s4.1[p]) && is_key_pair(s4.0[s4.1[p]].keys, p) by {
            assert(s.1.dom().contains(p));
            let g = s.1[p];
            assert(is_key_pair(s.0[g].keys, p));
        }
    }
}

proof fn lemma_timeout_exact(s: Stage, clock: crate::time::Timestamp, ft: crate::fiber::rule::CompiledFiberType)
    requires
        index_exact(s.0, s.1),
    ensures
        index_exact(timeout_stage(s, clock, ft).0, timeout_stage(s, clock, ft).1),
{
    match ft.temporal.max_gap {
        Some(g) => lemma_drop_exact(s.0, s.1, timed_out_set(s.0, clock, g, ft.temporal.gap_mode)),
        None => {},
    }
}

/// Merging one fiber into the survivor keeps the index exact.
proof fn lemma_merge_step_exact(fibers: Map<u128, FiberView>, index: Map<KeyPair, u128>, s: u128, o: u128)
    requires
        index_exact(fibers, index),
        fibers.dom().contains(s),
        fibers.dom().contains(o),
        s != o,
    ensures
        index_exact(
            fibers.remove(o).insert(s, merge_view(fibers[s], fibers[o])),
            updated_index(index, fibers[s].keys, fibers[o].keys, s),
        ),
{
    let f2 = fibers.remove(o).insert(s, merge_view(fibers[s], fibers[o]));
    let ka = fibers[o].keys;
    let i2 = updated_index(index, fibers[s].keys, ka, s);
    assert forall|p: KeyPair| #[trigger] i2.dom().contains(p)
        implies f2.dom().contains(i2[p]) && is_key_pair(f2[i2[p]].keys, p) by {
        if !is_key_pair(ka, p) {
            assert(index.dom().contains(p));
            let g = index[p];
            assert(is_key_pair(fibers[g].keys, p));
            if g == o {
                assert(is_key_pair(ka, p));
            }
        }
    }
}

/// The survivor after the first fibers of a merge, and one more merged in.
proof fn lemma_after_merge_step(fibers: Map<u128, FiberView>, ms: Seq<u128>, t: u128)
    requires
        ms.len() > 0,
        fibers.dom().contains(t),
        ms.no_duplicates(),
        forall|i: int| 0 <= i < ms.len() ==> fibers.dom().contains(#[trigger] ms[i]) && ms[i] != t,
    ensures
        ({
            let front = ms.drop_last();
            let g = after_merge(fibers, front, t);
            &&& g.dom().contains(ms.last())
            &&& g.dom().contains(t)
            &&& g[ms.last()] == fibers[ms.last()]
            &&& g[t] == merge_fold(fibers[t], front, fibers)
            &&& after_merge(fibers, ms, t) == g.remove(ms.last()).insert(t, merge_view(g[t], g[ms.last()]))
        }),
{
    let front = ms.drop_last();
    let m = ms.last();
    assert(ms[ms.len() - 1] == m);
    assert(!front.contains(m)) by {
        if front.contains(m) {
            let q = choose|q: int| 0 <= q < front.len() && front[q] == m;
            assert(ms[q] == ms[ms.len() - 1]);
        }
    }
    assert forall|x: u128| ms.to_set().contains(x) <==> (front.to_set().contains(x) || x == m) by {
        if ms.to_set().contains(x) {
            let q = choose|q: int| 0 <= q < ms.len() && ms[q] == x;
            if q < front.len() {
                assert(front[q] == x);
            }
        }
        if front.to_set().contains(x) {
            let q = choose|q: int| 0 <= q < front.len() && front[q] == x;
            assert(ms[q] == x);
        }
    }
    let g = after_merge(fibers, front, t);
    assert(merge_fold(fibers[t], ms, fibers) == merge_view(merge_fold(fibers[t], front, fibers), fibers[m]));
    assert(after_merge(fibers, ms, t) =~= g.remove(m).insert(t, merge_view(g[t], g[m])));
}

/// Merging the fibers of `ms`, in order, into the survivor keeps the index
/// exact.
proof fn lemma_merge_exact(fibers: Map<u128, FiberView>, index: Map<KeyPair, u128>, ms: Seq<u128>, t: u128)
    requires
        index_exact(fibers, index),
        fibers.dom().contains(t),
        ms.no_duplicates(),
        forall|i: int| 0 <= i < ms.len() ==> fibers.dom().contains(#[trigger] ms[i]) && ms[i] != t,
    ensures
        index_exact(after_merge(fibers, ms, t), merge_index(index, fibers, ms, t)),
    decreases ms.len(),
{
    if ms.len() == 0 {
        assert(ms.to_set() =~= Set::<u128>::empty());
        assert(merge_fold(fibers[t], ms, fibers) == fibers[t]);
        assert(after_merge(fibers, ms, t) =~= fibers);
    } else {
        let front = ms.drop_last();
        assert(front.no_duplicates()) by {
            assert forall|a: int, b: int| 0 <= a < front.len() && 0 <= b < front.len() && a != b implies front[a] != front[b] by {
                assert(front[a] == ms[a] && front[b] == ms[b]);
            }
        }
        assert forall|i: int| 0 <= i < front.len() implies fibers.dom().contains(#[trigger] front[i]) && front[i] != t by {
            assert(front[i] == ms[i]);
        }
        lemma_merge_exact(fibers, index, front, t);
        lemma_after_merge_step(fibers, ms, t);
        let g = after_merge(fibers, front, t);
        lemma_merge_step_exact(g, merge_index(index, fibers, front, t), t, ms.last());
    }
}

/// Law: a log that a pattern matches keeps the index exact: each entry
/// still leads to an open fiber that holds that key value. Merged fibers
/// hand their keys to the survivor, a value the survivor gives up leaves
/// the index, and a fiber that closes takes all its key values out of it:
/// keys are released on close.
pub proof fn law_match_keeps_index_exact(
    o: FiberTypeProcessor,
    f: FiberTypeProcessor,
    r: ProcessResult,
    log: LogRecord,
    m: PatternMatch,
)
    requires
        index_exact(o.fibers(), o.index()),
        match_effect(o, f, r, log, m),
    ensures
        index_exact(f.fibers(), f.index()),
{
    let attrs = log_attributes(o.ft(), m);
    let keys = string_views(o.ft().key_names@);
    let released = after_peer_release(o.fibers(), o.index(), m);
    let s1: Stage = (released.0, released.1);
    let mset = matching_set(attrs, keys, s1.1);
    let target = r.memberships@[0].fiber_id;
    let is_new = mset.is_empty();
    let s2: Stage = if is_new {
        (s1.0.insert(target, fresh_view(target, o.ft().name@, log.timestamp)), drop_pairs(s1.1, s1.0, set![target]))
    } else {
        (after_merge(s1.0, r.merged_fiber_ids@, target), merge_index(s1.1, s1.0, r.merged_fiber_ids@, target))
    };
    let s3 = join_stage(s2, target, log, attrs, keys, o.ft().attributes@);
    let s4 = self_release_stage(s3, target, string_views(m.release_self_keys@));
    let s5 = close_stage(s4, target, m.close);
    let s6 = timeout_stage(s5, log.timestamp, o.ft());
    lemma_peer_release_exact((o.fibers(), o.index(), Seq::empty(), Seq::empty()), string_views(m.release_matching_peer_keys@), m.extracted.map());
    assert(index_exact(s1.0, s1.1));
    if is_new {
        // the index loses what led to a fiber with the new id, if any
        lemma_drop_exact(s1.0, s1.1, set![target]);
        let d = drop_pairs(s1.1, s1.0, set![target]);
        assert forall|p: KeyPair| #[trigger] s2.1.dom().contains(p)
            implies s2.0.dom().contains(s2.1[p]) && is_key_pair(s2.0[s2.1[p]].keys, p) by {
            assert(d.dom().contains(p));
            assert(without(s1.0, set![target]).dom().contains(d[p]));
        }
    } else {
        // every fiber the log gathers is open
        assert forall|x: u128| #[trigger] mset.contains(x) implies s1.0.dom().contains(x) by {
            let n = choose|n: Seq<char>| #[trigger] attrs.dom().contains(n) && keys.contains(n)
                && s1.1.dom().contains((n, attrs[n])) && s1.1[(n, attrs[n])] == x;
            assert(s1.1.dom().contains((n, attrs[n])));
        }
        let ms = r.merged_fiber_ids@;
        assert(mset.contains(target));
        assert forall|i: int| 0 <= i < ms.len() implies s1.0.dom().contains(#[trigger] ms[i]) && ms[i] != target by {
            assert(ms.contains(ms[i]));
        }
        lemma_merge_exact(s1.0, s1.1, ms, target);
    }
    lemma_join_exact(s2, target, log, attrs, keys, o.ft().attributes@);
    lemma_self_release_exact(s3, target, string_views(m.release_self_keys@));
    lemma_close_exact(s4, target, m.close);
    lemma_timeout_exact(s5, log.timestamp, o.ft());
}

/// Law: a log that no pattern matches keeps the index exact: the fibers
/// that time out leave with all the key values that lead to them.
pub proof fn law_unmatched_keeps_index_exact(o: FiberTypeProcessor, f: FiberTypeProcessor, r: ProcessResult, log: LogRecord)
    requires
        index_exact(o.fibers(), o.index()),
        unmatched_effect(o, f, r, log),
    ensures
        index_exact(f.fibers(), f.index()),
{
    match o.ft().temporal.max_gap {
        Some(g) => lemma_drop_exact(o.fibers(), o.index(), timed_out_set(o.fibers(), log.timestamp, g, o.ft().temporal.gap_mode)),
        None => {},
    }
}

} // verus!

use vstd::prelude::*;
use crate::config::types::GapMode;
use crate::fiber::processor::{FiberTypeProcessor, PatternMatch, ProcessResult, derive_all, log_attributes, none_timed_out, unmatched_effect};
use crate::text::string_views;
use crate::fiber::rule::{CompiledFiberType, spec_interpolate};
use crate::fiber::session::FiberView;
use crate::source::reader::LogRecord;
use crate::time::Timestamp;

verus! {

/// A derived attribute keeps its value once later ones are derived, when
/// they have other names.
proof fn lemma_derived_value_kept(
    order: Seq<Seq<char>>,
    t: Map<Seq<char>, (Seq<char>, Seq<Seq<char>>)>,
    a: Map<Seq<char>, Seq<char>>,
    j: int,
    k: int,
)
    requires
        0 <= j < k <= order.len(),
        order.no_duplicates(),
    ensures
        derive_all(order.take(k), t, a).dom().contains(order[j]) == derive_all(order.take(j + 1), t, a).dom().contains(order[j]),
        derive_all(order.take(k), t, a)[order[j]] == derive_all(order.take(j + 1), t, a)[order[j]],
    decreases k - j,
{
    if k > j + 1 {
        lemma_derived_value_kept(order, t, a, j, k - 1);
        assert(order.take(k).drop_last() =~= order.take(k - 1));
        assert(order.take(k).last() == order[k - 1]);
        assert(order[k - 1] != order[j]);
    }
}

/// Law: a derived attribute is computed from the captured attributes and
/// the derived attributes before it in the evaluation order. When every
/// attribute its template refers to is captured or derived before it, the
/// log's attributes hold it, with its template filled in with those values
/// (so an attribute derived from another derived attribute sees that
/// attribute's value).
pub proof fn law_derived_sees_earlier_derived(
    order: Seq<Seq<char>>,
    t: Map<Seq<char>, (Seq<char>, Seq<Seq<char>>)>,
    a: Map<Seq<char>, Seq<char>>,
    j: int,
)
    requires
        0 <= j < order.len(),
        order.no_duplicates(),
        t.dom().contains(order[j]),
        forall|q: int| 0 <= q < t[order[j]].1.len()
            ==> derive_all(order.take(j), t, a).dom().contains(#[trigger] t[order[j]].1[q]),
    ensures
        spec_interpolate(t[order[j]], derive_all(order.take(j), t, a)) is Some,
        derive_all(order, t, a).dom().contains(order[j]),
        derive_all(order, t, a)[order[j]] == spec_interpolate(t[order[j]], derive_all(order.take(j), t, a))->0,
{
    assert(order.take(j + 1).drop_last() =~= order.take(j));
    assert(order.take(j + 1).last() == order[j]);
    if j + 1 < order.len() {
        lemma_derived_value_kept(order, t, a, j, order.len() as int);
    }
    assert(order.take(order.len() as int) =~= order);
}

/// Derived attributes other than `n` leave its value as captured.
proof fn lemma_underived_kept(
    order: Seq<Seq<char>>,
    t: Map<Seq<char>, (Seq<char>, Seq<Seq<char>>)>,
    a: Map<Seq<char>, Seq<char>>,
    n: Seq<char>,
)
    requires
        !order.contains(n),
    ensures
        derive_all(order, t, a).dom().contains(n) == a.dom().contains(n),
        a.dom().contains(n) ==> derive_all(order, t, a)[n] == a[n],
    decreases order.len(),
{
    if order.len() > 0 {
        let front = order.drop_last();
        assert(!front.contains(n)) by {
            if front.contains(n) {
                let q = choose|q: int| 0 <= q < front.len() && front[q] == n;
                assert(order[q] == n);
            }
        }
        lemma_underived_kept(front, t, a, n);
        assert(order[order.len() - 1] == order.last());
    }
}

/// Law: the attributes a log carries are those its pattern captured, each
/// kept as captured unless derived, and each derived attribute whose
/// references are all known when its turn comes, filled in from the
/// attributes known at that point (captured, or derived before it).
pub proof fn law_log_attributes(ft: CompiledFiberType, m: PatternMatch, n: Seq<char>, j: int)
    requires
        string_views(ft.derived_order@).no_duplicates(),
    ensures
        !string_views(ft.derived_order@).contains(n) ==> (log_attributes(ft, m).dom().contains(n) == m.extracted.map().dom().contains(n)
            && (m.extracted.map().dom().contains(n) ==> log_attributes(ft, m)[n] == m.extracted.map()[n])),
        ({
            let order = string_views(ft.derived_order@);
            let t = ft.derived_templates.map();
            let a = m.extracted.map();
            (0 <= j < order.len() && t.dom().contains(order[j])
                && forall|q: int| 0 <= q < t[order[j]].1.len()
                    ==> derive_all(order.take(j), t, a).dom().contains(#[trigger] t[order[j]].1[q]))
            ==> log_attributes(ft, m).dom().contains(order[j])
                && log_attributes(ft, m)[order[j]] == spec_interpolate(t[order[j]], derive_all(order.take(j), t, a))->0
        }),
{
    let order = string_views(ft.derived_order@);
    let t = ft.derived_templates.map();
    let a = m.extracted.map();
    if !order.contains(n) {
        lemma_underived_kept(order, t, a, n);
    }
    if 0 <= j < order.len() && t.dom().contains(order[j])
        && forall|q: int| 0 <= q < t[order[j]].1.len()
            ==> derive_all(order.take(j), t, a).dom().contains(#[trigger] t[order[j]].1[q]) {
        law_derived_sees_earlier_derived(order, t, a, j);
    }
}

/// The instant a fiber's gap is measured from, as the gap mode names it.
pub open spec fn gap_start(f: FiberView, mode: GapMode) -> Timestamp {
    match mode {
        GapMode::Session => f.last_activity,
        GapMode::FromStart => f.first_activity,
    }
}

/// Law: after a log, no open fiber is past its gap: with the session gap
/// mode, no more than the gap has passed since its latest log; measured
/// from the start, no more than the gap since its first log.
pub proof fn law_open_fibers_within_gap(fibers: Map<u128, FiberView>, clock: Timestamp, ft: CompiledFiberType)
    requires
        none_timed_out(fibers, clock, ft),
    ensures
        ft.temporal.max_gap matches Some(g) ==> forall|fid: u128| #[trigger] fibers.dom().contains(fid) ==> {
            &&& ft.temporal.gap_mode is Session ==> clock - fibers[fid].last_activity <= g
            &&& ft.temporal.gap_mode is FromStart ==> clock - fibers[fid].first_activity <= g
        },
{
}

/// Law: a log that no pattern matches closes exactly the open fibers past
/// their gap at its time: with the session gap mode, those whose latest log
/// is more than the gap before it; measured from the start, those whose
/// first log is (whatever their latest activity).
pub proof fn law_unmatched_closes_past_gap(o: FiberTypeProcessor, f: FiberTypeProcessor, r: ProcessResult, log: LogRecord)
    requires
        unmatched_effect(o, f, r, log),
    ensures
        o.ft().temporal.max_gap matches Some(g) ==> forall|fid: u128| #[trigger] o.fibers().dom().contains(fid) ==> {
            &&& (r.closed_fiber_ids@.contains(fid) <==> log.timestamp - gap_start(o.fibers()[fid], o.ft().temporal.gap_mode) > g)
            &&& (f.fibers().dom().contains(fid) <==> log.timestamp - gap_start(o.fibers()[fid], o.ft().temporal.gap_mode) <= g)
        },
        o.ft().temporal.max_gap is None ==> r.closed_fiber_ids@.len() == 0 && f.fibers() == o.fibers(),
{
    match o.ft().temporal.max_gap {
        Some(g) => {
            assert forall|fid: u128| #[trigger] o.fibers().dom().contains(fid) implies
                (r.closed_fiber_ids@.contains(fid) <==> log.timestamp - gap_start(o.fibers()[fid], o.ft().temporal.gap_mode) > g) by {
                assert(r.closed_fiber_ids@.to_set().contains(fid) == r.closed_fiber_ids@.contains(fid));
            }
        },
        None => {},
    }
}

} // verus!

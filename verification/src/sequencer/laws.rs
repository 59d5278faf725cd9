use vstd::prelude::*;
use crate::sequencer::local::{all_active_marked, min_active_watermark, some_active, spec_min_watermark};
use crate::time::Timestamp;

verus! {

/// The smallest active watermark is the watermark of an active source, and
/// no active source has a smaller one; there is none when no active source
/// has a watermark.
proof fn lemma_min_active(s: Seq<(Seq<char>, Option<Timestamp>, bool)>)
    ensures
        match min_active_watermark(s) {
            Some(m) => (exists|i: int| 0 <= i < s.len() && #[trigger] s[i].2 && s[i].1 == Some(m))
                && forall|i: int| 0 <= i < s.len() && #[trigger] s[i].2 && s[i].1 is Some ==> m <= s[i].1->0,
            None => forall|i: int| 0 <= i < s.len() ==> !(#[trigger] s[i].2 && s[i].1 is Some),
        },
    decreases s.len(),
{
    if s.len() > 0 {
        let front = s.drop_last();
        let n = s.len() - 1;
        lemma_min_active(front);
        assert(s[n] == s.last());
        let last = s.last();
        match min_active_watermark(front) {
            Some(m) => {
                let i0 = choose|i: int| 0 <= i < front.len() && #[trigger] front[i].2 && front[i].1 == Some(m);
                assert(s[i0] == front[i0]);
                if last.2 && last.1 is Some {
                    let w = last.1->0;
                    let r = if m <= w { m } else { w };
                    assert(min_active_watermark(s) == Some(r));
                    assert forall|i: int| 0 <= i < s.len() && #[trigger] s[i].2 && s[i].1 is Some implies r <= s[i].1->0 by {
                        if i < n {
                            assert(s[i] == front[i]);
                        }
                    }
                } else {
                    assert(min_active_watermark(s) == Some(m));
                    assert forall|i: int| 0 <= i < s.len() && #[trigger] s[i].2 && s[i].1 is Some implies m <= s[i].1->0 by {
                        if i < n {
                            assert(s[i] == front[i]);
                        }
                    }
                }
            },
            None => {
                if last.2 && last.1 is Some {
                    assert(min_active_watermark(s) == Some(last.1->0));
                    assert forall|i: int| 0 <= i < s.len() && #[trigger] s[i].2 && s[i].1 is Some implies last.1->0 <= s[i].1->0 by {
                        if i < n {
                            assert(s[i] == front[i]);
                        }
                    }
                } else {
                    assert forall|i: int| 0 <= i < s.len() implies !(#[trigger] s[i].2 && s[i].1 is Some) by {
                        if i < n {
                            assert(s[i] == front[i]);
                        }
                    }
                }
            },
        }
    }
}

/// Law: the release threshold comes from the active sources only: when it
/// is there, it is the watermark of an active source and no active source
/// has a smaller one, it is there exactly when some source is active and
/// every active source has a watermark, and a source that is done does not
/// bound it, whatever its watermark.
pub proof fn law_threshold_over_active_sources(s: Seq<(Seq<char>, Option<Timestamp>, bool)>, i: int, w: Option<Timestamp>)
    requires
        0 <= i < s.len(),
        !s[i].2,
    ensures
        spec_min_watermark(s) is Some <==> (some_active(s) && all_active_marked(s)),
        spec_min_watermark(s) matches Some(m) ==> (exists|j: int| 0 <= j < s.len() && #[trigger] s[j].2 && s[j].1 == Some(m))
            && forall|j: int| 0 <= j < s.len() && #[trigger] s[j].2 ==> (s[j].1 matches Some(x) && m <= x),
        spec_min_watermark(s.update(i, (s[i].0, w, false))) == spec_min_watermark(s),
{
    let s2 = s.update(i, (s[i].0, w, false));
    lemma_min_active(s);
    lemma_min_active(s2);
    assert forall|j: int| 0 <= j < s.len() implies (#[trigger] s2[j].2 == s[j].2) && (s[j].2 ==> s2[j].1 == s[j].1) by {}
    if some_active(s) {
        let j = choose|j: int| 0 <= j < s.len() && #[trigger] s[j].2;
        assert(s2[j].2);
    }
    if some_active(s2) {
        let j = choose|j: int| 0 <= j < s2.len() && #[trigger] s2[j].2;
        assert(s[j].2);
    }
    if all_active_marked(s) {
        assert forall|j: int| 0 <= j < s2.len() && #[trigger] s2[j].2 implies s2[j].1 is Some by {
            assert(s[j].2);
        }
    }
    if all_active_marked(s2) {
        assert forall|j: int| 0 <= j < s.len() && #[trigger] s[j].2 implies s[j].1 is Some by {
            assert(s2[j].2);
        }
    }
    if some_active(s) && all_active_marked(s) {
        let j0 = choose|j: int| 0 <= j < s.len() && #[trigger] s[j].2;
        assert(s[j0].1 is Some);
        match (min_active_watermark(s), min_active_watermark(s2)) {
            (Some(m1), Some(m2)) => {
                let a = choose|j: int| 0 <= j < s.len() && #[trigger] s[j].2 && s[j].1 == Some(m1);
                let b = choose|j: int| 0 <= j < s2.len() && #[trigger] s2[j].2 && s2[j].1 == Some(m2);
                assert(s2[a].2 && s2[a].1 == Some(m1));
                assert(s[b].2 && s[b].1 == Some(m2));
            },
            (None, _) => {
                assert(!(s[j0].2 && s[j0].1 is Some));
            },
            (_, None) => {
                assert(s2[j0].2 && s2[j0].1 == s[j0].1);
                assert(!(s2[j0].2 && s2[j0].1 is Some));
            },
        }
    }
}

} // verus!

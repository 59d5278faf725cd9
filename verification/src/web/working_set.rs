use vstd::prelude::*;
use crate::fiber::processor::{reports_membership, FiberProcessor, ProcessResult};
use crate::fiber::rule::CompiledFiberType;
use crate::reprocessing::record_of;
use crate::storage::traits::{FiberMembership, StoredLog};
use crate::time::{valid_delta, valid_timestamp, Nanos, Timestamp};
use crate::text::{append_str, str_eq, string_from_chars};
use crate::web::api::ApiError;

verus! {

/// The distinct items of `s`, in order of first occurrence.
pub open spec fn distinct(s: Seq<u128>) -> Seq<u128>
    decreases s.len(),
{
    if s.len() == 0 {
        s
    } else {
        let r = distinct(s.drop_last());
        if r.contains(s.last()) { r } else { r.push(s.last()) }
    }
}

/// The items of `s`, in order, that occur in `t` (`keep`) or that do not
/// (`!keep`).
pub open spec fn select(s: Seq<u128>, t: Seq<u128>, keep: bool) -> Seq<u128>
    decreases s.len(),
{
    if s.len() == 0 {
        s
    } else {
        let r = select(s.drop_last(), t, keep);
        if t.contains(s.last()) == keep { r.push(s.last()) } else { r }
    }
}

proof fn lemma_distinct(s: Seq<u128>)
    ensures
        distinct(s).no_duplicates(),
        forall|x: u128| #[trigger] distinct(s).contains(x) <==> s.contains(x),
    decreases s.len(),
{
    broadcast use vstd::seq_lib::lemma_seq_contains_after_push;
    if s.len() > 0 {
        lemma_distinct(s.drop_last());
        let r = distinct(s.drop_last());
        assert(s == s.drop_last().push(s.last()));
        assert forall|x: u128| #[trigger] distinct(s).contains(x) <==> s.contains(x) by {
            assert(s.drop_last().push(s.last()).contains(x) <==> s.last() == x || s.drop_last().contains(x));
        }
        if !r.contains(s.last()) {
            let t = r.push(s.last());
            assert forall|i: int, j: int| 0 <= i < t.len() && 0 <= j < t.len() && i != j implies t[i] != t[j] by {
                if i == r.len() {
                    assert(r[j] == t[j]);
                } else if j == r.len() {
                    assert(r[i] == t[i]);
                }
            }
        }
    }
}

proof fn lemma_select(s: Seq<u128>, t: Seq<u128>, keep: bool)
    ensures
        forall|x: u128| #[trigger] select(s, t, keep).contains(x) <==> (s.contains(x) && t.contains(x) == keep),
        s.no_duplicates() ==> select(s, t, keep).no_duplicates(),
    decreases s.len(),
{
    broadcast use vstd::seq_lib::lemma_seq_contains_after_push;
    if s.len() > 0 {
        let p = s.drop_last();
        lemma_select(p, t, keep);
        let r = select(p, t, keep);
        assert(s == p.push(s.last()));
        assert forall|x: u128| #[trigger] select(s, t, keep).contains(x) <==> (s.contains(x) && t.contains(x) == keep) by {
            assert(p.push(s.last()).contains(x) <==> s.last() == x || p.contains(x));
        }
        if s.no_duplicates() && t.contains(s.last()) == keep {
            assert(!p.contains(s.last())) by {
                if p.contains(s.last()) {
                    let k = choose|k: int| 0 <= k < p.len() && p[k] == s.last();
                    assert(s[k] == s[s.len() - 1]);
                }
            }
            assert(p.no_duplicates()) by {
                assert forall|i: int, j: int| 0 <= i < p.len() && 0 <= j < p.len() && i != j implies p[i] != p[j] by {
                    assert(s[i] == p[i] && s[j] == p[j]);
                }
            }
            let u = r.push(s.last());
            assert forall|i: int, j: int| 0 <= i < u.len() && 0 <= j < u.len() && i != j implies u[i] != u[j] by {
                if i == r.len() {
                    assert(r[j] == u[j] && r.contains(r[j]));
                } else if j == r.len() {
                    assert(r[i] == u[i] && r.contains(r[i]));
                }
            }
        } else if s.no_duplicates() {
            assert forall|i: int, j: int| 0 <= i < p.len() && 0 <= j < p.len() && i != j implies p[i] != p[j] by {
                assert(s[i] == p[i] && s[j] == p[j]);
            }
        }
    }
}

/// How the logs that a fiber received compare with the logs expected of it:
/// `intersection` and `union` are the sizes of the intersection and the union
/// of the two sets of log ids.
pub open spec fn counts_of(expected: Seq<u128>, fiber: Seq<u128>) -> (nat, nat) {
    let m = select(distinct(expected), fiber, true).len();
    let missing = select(distinct(expected), fiber, false).len();
    let extra = select(distinct(fiber), expected, false).len();
    (m, m + missing + extra)
}

/// The counts that a comparison reports are the sizes of the intersection and
/// of the union of the expected log ids and the fiber's log ids, taken as sets.
pub proof fn law_match_counts(expected: Seq<u128>, fiber: Seq<u128>)
    ensures
        counts_of(expected, fiber).0 == expected.to_set().intersect(fiber.to_set()).len(),
        counts_of(expected, fiber).1 == expected.to_set().union(fiber.to_set()).len(),
{
    broadcast use vstd::seq_lib::seq_to_set_is_finite;
    let de = distinct(expected);
    let df = distinct(fiber);
    lemma_distinct(expected);
    lemma_distinct(fiber);
    let m = select(de, fiber, true);
    let mi = select(de, fiber, false);
    let ex = select(df, expected, false);
    lemma_select(de, fiber, true);
    lemma_select(de, fiber, false);
    lemma_select(df, expected, false);
    let e = expected.to_set();
    let f = fiber.to_set();
    assert(m.to_set() =~= e.intersect(f));
    assert(mi.to_set() =~= e.difference(f));
    assert(ex.to_set() =~= f.difference(e));
    m.unique_seq_to_set();
    mi.unique_seq_to_set();
    ex.unique_seq_to_set();
    let a = e.intersect(f);
    let b = e.difference(f);
    let c = f.difference(e);
    vstd::set_lib::lemma_set_disjoint_lens(a, b);
    assert(a.disjoint(b));
    vstd::set_lib::lemma_len_subset(a, e);
    vstd::set_lib::lemma_len_subset(b, e);
    vstd::set_lib::lemma_len_subset(c, f);
    assert((a + b).finite());
    vstd::set_lib::lemma_set_disjoint_lens(a + b, c);
    assert((a + b).disjoint(c));
    assert(a + b + c =~= e.union(f));
}


fn contains_id(v: &Vec<u128>, x: u128) -> (b: bool)
    ensures
        b == v@.contains(x),
{
    let n = v.len();
    let mut i: usize = 0;
    while i < n
        invariant
            n == v@.len(),
            i <= n,
            forall|k: int| 0 <= k < i ==> v@[k] != x,
        decreases n - i,
    {
        if v[i] == x {
            return true;
        }
        i += 1;
    }
    false
}

/// The distinct ids of `s`, in order of first occurrence.
pub fn distinct_ids(s: &Vec<u128>) -> (r: Vec<u128>)
    ensures
        r@ == distinct(s@),
{
    let n = s.len();
    let mut r: Vec<u128> = Vec::new();
    let mut i: usize = 0;
    while i < n
        invariant
            n == s@.len(),
            i <= n,
            r@ == distinct(s@.take(i as int)),
        decreases n - i,
    {
        assert(s@.take(i + 1).drop_last() == s@.take(i as int));
        if !contains_id(&r, s[i]) {
            r.push(s[i]);
        }
        i += 1;
    }
    assert(s@.take(n as int) == s@);
    r
}

/// The ids of `s`, in order, that occur in `t` (`keep`) or that do not.
pub fn select_ids(s: &Vec<u128>, t: &Vec<u128>, keep: bool) -> (r: Vec<u128>)
    ensures
        r@ == select(s@, t@, keep),
{
    let n = s.len();
    let mut r: Vec<u128> = Vec::new();
    let mut i: usize = 0;
    while i < n
        invariant
            n == s@.len(),
            i <= n,
            r@ == select(s@.take(i as int), t@, keep),
        decreases n - i,
    {
        assert(s@.take(i + 1).drop_last() == s@.take(i as int));
        if contains_id(t, s[i]) == keep {
            r.push(s[i]);
        }
        i += 1;
    }
    assert(s@.take(n as int) == s@);
    r
}

proof fn lemma_lens(s: Seq<u128>, t: Seq<u128>)
    ensures
        distinct(s).len() <= s.len(),
        select(s, t, true).len() + select(s, t, false).len() == s.len(),
    decreases s.len(),
{
    if s.len() > 0 {
        lemma_lens(s.drop_last(), t);
    }
}

/// The ids of the window's logs.
pub open spec fn window_ids(w: Seq<StoredLog>) -> Seq<u128> {
    w.map_values(|l: StoredLog| l.log_id)
}

/// The first position of `id` in `w`.
pub open spec fn first_index(w: Seq<u128>, id: u128) -> Option<int>
    decreases w.len(),
{
    if w.len() == 0 {
        None
    } else {
        match first_index(w.drop_last(), id) {
            Some(k) => Some(k),
            None => if w.last() == id { Some(w.len() - 1) } else { None },
        }
    }
}

/// For each id of `ids` in turn, the first position of a log with that id in
/// the window `w`; ids that no log of the window has are passed over.
pub open spec fn positions(ids: Seq<u128>, w: Seq<u128>) -> Seq<usize>
    decreases ids.len(),
{
    if ids.len() == 0 {
        Seq::empty()
    } else {
        let r = positions(ids.drop_last(), w);
        match first_index(w, ids.last()) {
            Some(k) => r.push(k as usize),
            None => r,
        }
    }
}

proof fn lemma_first_index(w: Seq<u128>, id: u128)
    ensures
        match first_index(w, id) {
            Some(k) => 0 <= k < w.len() && w[k] == id && forall|j: int| 0 <= j < k ==> w[j] != id,
            None => forall|j: int| 0 <= j < w.len() ==> w[j] != id,
        },
    decreases w.len(),
{
    if w.len() > 0 {
        let p = w.drop_last();
        lemma_first_index(p, id);
        assert forall|j: int| 0 <= j < p.len() implies p[j] == w[j] by {}
    }
}

fn find_log(w: &Vec<StoredLog>, id: u128) -> (r: Option<usize>)
    ensures
        match r {
            Some(k) => first_index(window_ids(w@), id) == Some(k as int),
            None => first_index(window_ids(w@), id) is None,
        },
{
    let n = w.len();
    let mut i: usize = 0;
    proof {
        lemma_first_index(window_ids(w@), id);
        assert forall|k: int| 0 <= k < n implies window_ids(w@)[k] == (#[trigger] w@[k]).log_id by {}
    }
    while i < n
        invariant
            n == w@.len(),
            i <= n,
            forall|k: int| 0 <= k < i ==> (#[trigger] w@[k]).log_id != id,
            match first_index(window_ids(w@), id) {
                Some(k) => 0 <= k < n && w@[k].log_id == id && forall|j: int| 0 <= j < k ==> (#[trigger] w@[j]).log_id != id,
                None => forall|j: int| 0 <= j < n ==> (#[trigger] w@[j]).log_id != id,
            },
        decreases n - i,
    {
        if w[i].log_id == id {
            proof {
                match first_index(window_ids(w@), id) {
                    Some(k) => {
                        if k < i {
                            assert(w@[k].log_id != id);
                        }
                        if k > i {
                            assert(w@[i as int].log_id != id);
                        }
                    },
                    None => {
                        assert(w@[i as int].log_id != id);
                    },
                }
            }
            return Some(i);
        }
        i += 1;
    }
    proof {
        match first_index(window_ids(w@), id) {
            Some(k) => {
                assert(w@[k].log_id != id);
            },
            None => {},
        }
    }
    None
}

/// How the logs of one fiber compare with the logs expected of it.
pub struct FiberMatchResult {
    pub fiber_id: u128,
    /// How many expected logs the fiber has.
    pub intersection: usize,
    /// How many logs are expected or in the fiber, or both.
    pub union: usize,
    /// The expected logs that the fiber has.
    pub matching_logs: Vec<u128>,
    /// The expected logs that the fiber lacks.
    pub missing_logs: Vec<u128>,
    /// The fiber's logs that were not expected.
    pub extra_log_ids: Vec<u128>,
    /// The positions in the window of the fiber's logs, in the order in which
    /// the fiber received them.
    pub logs: Vec<usize>,
}

/// `r` compares the logs that fiber `fiber_id` received with the logs
/// expected of it.
pub open spec fn is_comparison(r: FiberMatchResult, fiber_id: u128, expected: Seq<u128>, fiber_logs: Seq<u128>, window: Seq<StoredLog>) -> bool {
    &&& r.fiber_id == fiber_id
    &&& r.matching_logs@ == select(distinct(expected), fiber_logs, true)
    &&& r.missing_logs@ == select(distinct(expected), fiber_logs, false)
    &&& r.extra_log_ids@ == select(distinct(fiber_logs), expected, false)
    &&& r.intersection == counts_of(expected, fiber_logs).0
    &&& r.union == if counts_of(expected, fiber_logs).1 <= usize::MAX { counts_of(expected, fiber_logs).1 } else { usize::MAX as nat }
    &&& r.logs@ == positions(fiber_logs, window_ids(window))
}

/// Compares the logs that a fiber received with the logs expected of it.
///
/// The union is counted up to `usize::MAX` (it holds distinct ids of logs in
/// memory, so it never reaches it).
pub fn compare_fiber(fiber_id: u128, expected: &Vec<u128>, fiber_logs: &Vec<u128>, window: &Vec<StoredLog>) -> (r: FiberMatchResult)
    ensures
        is_comparison(r, fiber_id, expected@, fiber_logs@, window@),
{
    let de = distinct_ids(expected);
    let df = distinct_ids(fiber_logs);
    let matching_logs = select_ids(&de, fiber_logs, true);
    let missing_logs = select_ids(&de, fiber_logs, false);
    let extra_log_ids = select_ids(&df, expected, false);
    proof {
        lemma_lens(expected@, fiber_logs@);
        lemma_lens(fiber_logs@, expected@);
        lemma_lens(de@, fiber_logs@);
        lemma_lens(df@, expected@);
    }
    let intersection = matching_logs.len();
    let union = intersection.saturating_add(missing_logs.len()).saturating_add(extra_log_ids.len());
    let n = fiber_logs.len();
    let mut logs: Vec<usize> = Vec::new();
    let mut i: usize = 0;
    while i < n
        invariant
            n == fiber_logs@.len(),
            i <= n,
            logs@ == positions(fiber_logs@.take(i as int), window_ids(window@)),
        decreases n - i,
    {
        assert(fiber_logs@.take(i + 1).drop_last() == fiber_logs@.take(i as int));
        match find_log(window, fiber_logs[i]) {
            Some(k) => logs.push(k),
            None => {},
        }
        i += 1;
    }
    assert(fiber_logs@.take(n as int) == fiber_logs@);
    FiberMatchResult { fiber_id, intersection, union, matching_logs, missing_logs, extra_log_ids, logs }
}


/// The numerator of a result's intersection over union (0 when the union is
/// empty).
pub open spec fn iou_num(r: FiberMatchResult) -> int {
    if r.union == 0 { 0 } else { r.intersection as int }
}

/// The denominator of a result's intersection over union.
pub open spec fn iou_den(r: FiberMatchResult) -> int {
    if r.union == 0 { 1 } else { r.union as int }
}

/// The intersection over union of `a` is at least that of `b`.
pub open spec fn iou_at_least(a: FiberMatchResult, b: FiberMatchResult) -> bool {
    iou_num(a) * iou_den(b) >= iou_num(b) * iou_den(a)
}

/// The results come in order of intersection over union, highest first.
pub open spec fn ranked(s: Seq<FiberMatchResult>) -> bool {
    forall|i: int, j: int| 0 <= i < j < s.len() ==> #[trigger] iou_at_least(s[i], s[j])
}

proof fn lemma_iou_trans(a: FiberMatchResult, b: FiberMatchResult, c: FiberMatchResult)
    requires
        iou_at_least(a, b),
        iou_at_least(b, c),
    ensures
        iou_at_least(a, c),
{
    let an = iou_num(a);
    let ad = iou_den(a);
    let bn = iou_num(b);
    let bd = iou_den(b);
    let cn = iou_num(c);
    let cd = iou_den(c);
    assert(an * bd * cd >= bn * ad * cd) by (nonlinear_arith)
        requires
            an * bd >= bn * ad,
            cd > 0,
    ;
    assert(bn * cd * ad >= cn * bd * ad) by (nonlinear_arith)
        requires
            bn * cd >= cn * bd,
            ad > 0,
    ;
    assert(bd * (an * cd) >= bd * (cn * ad)) by (nonlinear_arith)
        requires
            an * bd * cd >= bn * ad * cd,
            bn * cd * ad >= cn * bd * ad,
    ;
    assert(an * cd >= cn * ad) by (nonlinear_arith)
        requires
            bd * (an * cd) >= bd * (cn * ad),
            bd > 0,
    ;
}

fn iou_ge(a: &FiberMatchResult, b: &FiberMatchResult) -> (r: bool)
    ensures
        r == iou_at_least(*a, *b),
{
    let an: u128 = if a.union == 0 { 0 } else { a.intersection as u128 };
    let ad: u128 = if a.union == 0 { 1 } else { a.union as u128 };
    let bn: u128 = if b.union == 0 { 0 } else { b.intersection as u128 };
    let bd: u128 = if b.union == 0 { 1 } else { b.union as u128 };
    assert(an * bd <= 0xffff_ffff_ffff_ffffu128 * 0xffff_ffff_ffff_ffffu128) by (nonlinear_arith)
        requires
            an <= 0xffff_ffff_ffff_ffffu128,
            bd <= 0xffff_ffff_ffff_ffffu128,
    ;
    assert(bn * ad <= 0xffff_ffff_ffff_ffffu128 * 0xffff_ffff_ffff_ffffu128) by (nonlinear_arith)
        requires
            bn <= 0xffff_ffff_ffff_ffffu128,
            ad <= 0xffff_ffff_ffff_ffffu128,
    ;
    an * bd >= bn * ad
}

/// `r` holds the items of `s` in another order: `perm` maps each position of
/// `r` to a position of `s`, each position of `s` once.
pub open spec fn is_permutation_of(r: Seq<FiberMatchResult>, s: Seq<FiberMatchResult>) -> bool {
    exists|perm: Seq<int>| {
        &&& perm.len() == r.len()
        &&& r.len() == s.len()
        &&& perm.no_duplicates()
        &&& forall|i: int| 0 <= i < perm.len() ==> 0 <= #[trigger] perm[i] < s.len() && r[i] == s[perm[i]]
    }
}

/// Orders the results by intersection over union, highest first.
pub fn rank_by_iou(results: Vec<FiberMatchResult>) -> (r: Vec<FiberMatchResult>)
    ensures
        ranked(r@),
        r@.to_multiset() == results@.to_multiset(),
        is_permutation_of(r@, results@),
{
    broadcast use vstd::multiset::group_multiset_axioms;
    let ghost all = results@;
    let ghost mut perm: Seq<int> = Seq::empty();
    let mut rest = results;
    let mut out: Vec<FiberMatchResult> = Vec::new();
    proof {
        vstd::seq_lib::to_multiset_len(out@);
        vstd::multiset::lemma_multiset_empty_len(out@.to_multiset());
    }
    while rest.len() > 0
        invariant
            ranked(out@),
            rest@.to_multiset().add(out@.to_multiset()) == all.to_multiset(),
            rest@ == all.take(rest@.len() as int),
            rest@.len() <= all.len(),
            perm.len() == out@.len(),
            out@.len() + rest@.len() == all.len(),
            perm.no_duplicates(),
            forall|k: int| 0 <= k < perm.len() ==> rest@.len() <= #[trigger] perm[k] < all.len() && out@[k] == all[perm[k]],
        decreases rest@.len(),
    {
        let ghost before = rest@;
        let x = match rest.pop() {
            Some(x) => x,
            None => { return out; },
        };
        proof {
            assert(before == rest@.push(x));
            vstd::seq_lib::to_multiset_build(rest@, x);
            assert(rest@ == all.take(rest@.len() as int));
            assert(x == all[rest@.len() as int]);
        }
        let n = out.len();
        let mut p: usize = 0;
        while p < n
            invariant
                n == out@.len(),
                p <= n,
                forall|k: int| 0 <= k < p ==> #[trigger] iou_at_least(out@[k], x),
            ensures
                p <= n,
                forall|k: int| 0 <= k < p ==> #[trigger] iou_at_least(out@[k], x),
                p < n ==> !iou_at_least(out@[p as int], x),
            decreases n - p,
        {
            if !iou_ge(&out[p], &x) {
                break;
            }
            p += 1;
        }
        let ghost old_out = out@;
        proof {
            old_out.insert_ensures(p as int, x);
            vstd::seq_lib::to_multiset_insert(old_out, p as int, x);
        }
        out.insert(p, x);
        proof {
            let m = rest@.len() as int;
            let old_perm = perm;
            old_perm.insert_ensures(p as int, m);
            perm = old_perm.insert(p as int, m);
            assert forall|a: int, b: int| 0 <= a < perm.len() && 0 <= b < perm.len() && a != b implies perm[a] != perm[b] by {
                let ia = if a < p { a } else if a == p { -1 } else { a - 1 };
                let ib = if b < p { b } else if b == p { -1 } else { b - 1 };
                if ia >= 0 { assert(perm[a] == old_perm[ia]); }
                if ib >= 0 { assert(perm[b] == old_perm[ib]); }
            }
            assert forall|k: int| 0 <= k < perm.len() implies rest@.len() <= #[trigger] perm[k] < all.len() && out@[k] == all[perm[k]] by {
                if k < p {
                    assert(perm[k] == old_perm[k]);
                } else if k > p {
                    assert(perm[k] == old_perm[k - 1]);
                }
            }
            let t = out@;
            assert forall|i: int, j: int| 0 <= i < j < t.len() implies #[trigger] iou_at_least(t[i], t[j]) by {
                if j < p {
                    assert(t[i] == old_out[i] && t[j] == old_out[j]);
                    assert(iou_at_least(old_out[i], old_out[j]));
                } else if j == p {
                    assert(t[i] == old_out[i] && t[j] == x);
                    assert(iou_at_least(old_out[i], x));
                } else if i == p {
                    assert(t[j] == old_out[j - 1] && t[i] == x);
                    assert(p < n);
                    assert(!iou_at_least(old_out[p as int], x));
                    assert(iou_at_least(x, old_out[p as int]));
                    if j - 1 > p {
                        assert(iou_at_least(old_out[p as int], old_out[j - 1]));
                        lemma_iou_trans(x, old_out[p as int], old_out[j - 1]);
                    }
                } else if i < p {
                    assert(t[i] == old_out[i] && t[j] == old_out[j - 1]);
                    assert(iou_at_least(old_out[i], old_out[j - 1]));
                } else {
                    assert(t[i] == old_out[i - 1] && t[j] == old_out[j - 1]);
                    assert(iou_at_least(old_out[i - 1], old_out[j - 1]));
                }
            }
        }
    }
    proof {
        assert forall|j: int| 0 <= j < perm.len() implies 0 <= #[trigger] perm[j] < all.len() && out@[j] == all[perm[j]] by {}
    }
    proof {
        vstd::seq_lib::to_multiset_len(rest@);
        vstd::multiset::lemma_multiset_empty_len(rest@.to_multiset());
    }
    out
}


/// The groups' fiber ids with the log ids of each.
pub open spec fn groups_view(g: Seq<(u128, Vec<u128>)>) -> Seq<(u128, Seq<u128>)> {
    g.map_values(|e: (u128, Vec<u128>)| (e.0, e.1@))
}

/// The first position of the group of fiber `f`.
pub open spec fn group_index(g: Seq<(u128, Seq<u128>)>, f: u128) -> Option<int>
    decreases g.len(),
{
    if g.len() == 0 {
        None
    } else {
        match group_index(g.drop_last(), f) {
            Some(k) => Some(k),
            None => if g.last().0 == f { Some(g.len() - 1) } else { None },
        }
    }
}

/// Log `l` joins the group of fiber `f`, which is opened at the end if
/// there is none yet.
pub open spec fn add_member(g: Seq<(u128, Seq<u128>)>, f: u128, l: u128) -> Seq<(u128, Seq<u128>)> {
    match group_index(g, f) {
        Some(k) => g.update(k, (f, g[k].1.push(l))),
        None => g.push((f, seq![l])),
    }
}

/// The groups after the memberships, in order.
pub open spec fn add_members(g: Seq<(u128, Seq<u128>)>, ms: Seq<FiberMembership>) -> Seq<(u128, Seq<u128>)>
    decreases ms.len(),
{
    if ms.len() == 0 {
        g
    } else {
        add_member(add_members(g, ms.drop_last()), ms.last().fiber_id, ms.last().log_id)
    }
}

/// The groups after the memberships of the results, in order.
pub open spec fn add_results(g: Seq<(u128, Seq<u128>)>, rs: Seq<ProcessResult>) -> Seq<(u128, Seq<u128>)>
    decreases rs.len(),
{
    if rs.len() == 0 {
        g
    } else {
        add_members(add_results(g, rs.drop_last()), rs.last().memberships@)
    }
}

proof fn lemma_group_index(g: Seq<(u128, Seq<u128>)>, f: u128)
    ensures
        match group_index(g, f) {
            Some(k) => 0 <= k < g.len() && g[k].0 == f && forall|j: int| 0 <= j < k ==> g[j].0 != f,
            None => forall|j: int| 0 <= j < g.len() ==> g[j].0 != f,
        },
    decreases g.len(),
{
    if g.len() > 0 {
        let p = g.drop_last();
        lemma_group_index(p, f);
        assert forall|j: int| 0 <= j < p.len() implies p[j] == g[j] by {}
    }
}

fn add_membership(groups: &mut Vec<(u128, Vec<u128>)>, f: u128, l: u128)
    ensures
        groups_view(final(groups)@) == add_member(groups_view(old(groups)@), f, l),
{
    let ghost gv = groups_view(groups@);
    proof {
        lemma_group_index(gv, f);
        assert forall|k: int| 0 <= k < groups@.len() implies gv[k].0 == (#[trigger] groups@[k]).0 by {}
    }
    let n = groups.len();
    let mut i: usize = 0;
    while i < n
        invariant
            n == groups@.len(),
            gv == groups_view(groups@),
            gv == groups_view(old(groups)@),
            i <= n,
            forall|k: int| 0 <= k < i ==> (#[trigger] groups@[k]).0 != f,
            forall|k: int| 0 <= k < n ==> gv[k].0 == (#[trigger] groups@[k]).0,
            match group_index(gv, f) {
                Some(k) => 0 <= k < n && gv[k].0 == f && forall|j: int| 0 <= j < k ==> gv[j].0 != f,
                None => forall|j: int| 0 <= j < n ==> gv[j].0 != f,
            },
        decreases n - i,
    {
        if groups[i].0 == f {
            proof {
                match group_index(gv, f) {
                    Some(k) => {
                        if k < i {
                            assert(groups@[k].0 != f);
                        }
                        if k > i {
                            assert(gv[i as int].0 == groups@[i as int].0);
                        }
                    },
                    None => {
                        assert(gv[i as int].0 == groups@[i as int].0);
                    },
                }
                assert(group_index(gv, f) == Some(i as int));
            }
            groups[i].1.push(l);
            proof {
                assert(groups_view(groups@) =~= gv.update(i as int, (f, gv[i as int].1.push(l))));
                assert(add_member(gv, f, l) == gv.update(i as int, (f, gv[i as int].1.push(l))));
            }
            return;
        }
        i += 1;
    }
    proof {
        match group_index(gv, f) {
            Some(k) => {
                assert(groups@[k].0 != f);
            },
            None => {},
        }
    }
    let mut logs: Vec<u128> = Vec::new();
    logs.push(l);
    groups.push((f, logs));
    proof {
        assert(groups_view(groups@) =~= gv.push((f, seq![l])));
    }
}

/// Adds the memberships of the results to the groups, each log to the group
/// of its fiber, in order; a fiber's group is opened at the end when it
/// gets its first log.
pub fn collect_memberships(groups: &mut Vec<(u128, Vec<u128>)>, results: &Vec<ProcessResult>)
    ensures
        groups_view(final(groups)@) == add_results(groups_view(old(groups)@), results@),
{
    let ghost g0 = groups_view(groups@);
    let n = results.len();
    let mut i: usize = 0;
    while i < n
        invariant
            n == results@.len(),
            i <= n,
            groups_view(groups@) == add_results(g0, results@.take(i as int)),
        decreases n - i,
    {
        assert(results@.take(i + 1).drop_last() == results@.take(i as int));
        let ms = &results[i].memberships;
        let ghost gi = groups_view(groups@);
        let m = ms.len();
        let mut j: usize = 0;
        while j < m
            invariant
                m == ms@.len(),
                j <= m,
                groups_view(groups@) == add_members(gi, ms@.take(j as int)),
            decreases m - j,
        {
            assert(ms@.take(j + 1).drop_last() == ms@.take(j as int));
            add_membership(groups, ms[j].fiber_id, ms[j].log_id);
            j += 1;
        }
        assert(ms@.take(m as int) == ms@);
        i += 1;
    }
    assert(results@.take(n as int) == results@);
}


/// The margin round the expected logs for a fiber type without a gap
/// limit: one hour, in nanoseconds.
pub const UNLIMITED_GAP_MARGIN: u128 = 3_600_000_000_000;

/// The margin for a gap limit too long to be a time delta: sixty seconds.
pub const OVERLONG_GAP_MARGIN: u128 = 60_000_000_000;

/// The margin round the expected logs: none when the request leaves it out,
/// else the fiber type's gap limit.
pub open spec fn spec_margin(max_gap: Option<Nanos>, include_margin: Option<bool>) -> Nanos {
    if include_margin == Some(false) {
        0
    } else {
        match max_gap {
            Some(g) => if valid_delta(g) { g } else { OVERLONG_GAP_MARGIN },
            None => UNLIMITED_GAP_MARGIN,
        }
    }
}

/// The margin round the expected logs (the margin is included unless the
/// request says otherwise).
pub fn working_set_margin(max_gap: Option<Nanos>, include_margin: Option<bool>) -> (m: Nanos)
    ensures
        m == spec_margin(max_gap, include_margin),
        valid_delta(m),
{
    let with_margin = match include_margin {
        Some(b) => b,
        None => true,
    };
    if !with_margin {
        0
    } else {
        match max_gap {
            Some(g) => if g <= crate::time::MAX_DELTA_NANOS { g } else { OVERLONG_GAP_MARGIN },
            None => UNLIMITED_GAP_MARGIN,
        }
    }
}

/// The time span in which logs are tested.
pub struct TimeWindowDto {
    pub start: Timestamp,
    pub end: Timestamp,
}

/// The span from the earliest expected log to the latest, widened by the
/// margin on both sides.
pub fn working_set_window(timestamps: &Vec<Timestamp>, margin: Nanos) -> (r: Result<TimeWindowDto, ApiError>)
    requires
        forall|i: int| 0 <= i < timestamps@.len() ==> valid_timestamp(#[trigger] timestamps@[i]),
        valid_delta(margin),
    ensures
        match r {
            Ok(w) => {
                &&& timestamps@.len() > 0
                &&& exists|i: int| 0 <= i < timestamps@.len() && w.start + margin == #[trigger] timestamps@[i]
                &&& exists|i: int| 0 <= i < timestamps@.len() && w.end - margin == #[trigger] timestamps@[i]
                &&& forall|i: int| 0 <= i < timestamps@.len() ==> w.start + margin <= #[trigger] timestamps@[i] <= w.end - margin
            },
            Err(e) => timestamps@.len() == 0 && (e matches ApiError::Internal(m) && m@ == "No logs found"@),
        },
{
    let n = timestamps.len();
    if n == 0 {
        return Err(ApiError::Internal(String::from_str("No logs found")));
    }
    let mut lo = timestamps[0];
    let mut hi = timestamps[0];
    let mut i: usize = 1;
    while i < n
        invariant
            n == timestamps@.len(),
            1 <= i <= n,
            forall|k: int| 0 <= k < n ==> valid_timestamp(#[trigger] timestamps@[k]),
            exists|k: int| 0 <= k < i && lo == #[trigger] timestamps@[k],
            exists|k: int| 0 <= k < i && hi == #[trigger] timestamps@[k],
            forall|k: int| 0 <= k < i ==> lo <= #[trigger] timestamps@[k] <= hi,
        decreases n - i,
    {
        if timestamps[i] < lo {
            lo = timestamps[i];
        }
        if timestamps[i] > hi {
            hi = timestamps[i];
        }
        i += 1;
    }
    let m = margin as i128;
    Ok(TimeWindowDto { start: lo - m, end: hi + m })
}

/// The keys of a parsed fiber type definition: `None` when the text is not a
/// mapping, and each key's text where the key is a string.
pub open spec fn entry_check(keys: Option<Seq<Option<Seq<char>>>>, name: Seq<char>) -> Option<Seq<char>> {
    match keys {
        None => Some("YAML must be a mapping with one fiber type"@),
        Some(ks) => if ks.len() != 1 {
            Some("YAML must contain exactly one fiber type definition"@)
        } else {
            match ks[0] {
                None => Some("Fiber type name must be a string"@),
                Some(k) => if k != name {
                    Some("Fiber type name in YAML ('"@ + k + "') does not match path parameter ('"@ + name + "')"@)
                } else {
                    None
                },
            }
        },
    }
}

pub open spec fn keys_view(keys: Option<Vec<Option<String>>>) -> Option<Seq<Option<Seq<char>>>> {
    match keys {
        None => None,
        Some(ks) => Some(ks@.map_values(|k: Option<String>| match k {
            Some(s) => Some(s@),
            None => None,
        })),
    }
}

/// Checks that a fiber type definition holds exactly one fiber type, named
/// as the request's path says.
pub fn check_fiber_entry(keys: &Option<Vec<Option<String>>>, fiber_type_name: &str) -> (r: Result<(), ApiError>)
    ensures
        match entry_check(keys_view(*keys), fiber_type_name@) {
            None => r is Ok,
            Some(msg) => r matches Err(ApiError::BadRequest(m)) && m@ == msg,
        },
{
    match keys {
        None => Err(ApiError::BadRequest(String::from_str("YAML must be a mapping with one fiber type"))),
        Some(ks) => {
            if ks.len() != 1 {
                return Err(ApiError::BadRequest(String::from_str("YAML must contain exactly one fiber type definition")));
            }
            assert(keys_view(*keys).unwrap()[0] == match ks@[0] {
                Some(s) => Some(s@),
                None => None::<Seq<char>>,
            });
            match &ks[0] {
                None => Err(ApiError::BadRequest(String::from_str("Fiber type name must be a string"))),
                Some(k) => {
                    if !str_eq(k.as_str(), fiber_type_name) {
                        let mut m: Vec<char> = Vec::new();
                        append_str(&mut m, "Fiber type name in YAML ('");
                        append_str(&mut m, k.as_str());
                        append_str(&mut m, "') does not match path parameter ('");
                        append_str(&mut m, fiber_type_name);
                        append_str(&mut m, "')");
                        assert(m@ =~= "Fiber type name in YAML ('"@ + k@ + "') does not match path parameter ('"@
                            + fiber_type_name@ + "')"@);
                        Err(ApiError::BadRequest(string_from_chars(m.as_slice())))
                    } else {
                        Ok(())
                    }
                },
            }
        },
    }
}


/// Compares each group of logs with the logs expected, in the order of the
/// groups.
pub fn compare_groups(groups: &Vec<(u128, Vec<u128>)>, expected: &Vec<u128>, window: &Vec<StoredLog>) -> (r: Vec<FiberMatchResult>)
    ensures
        r@.len() == groups@.len(),
        forall|i: int| 0 <= i < r@.len() ==> is_comparison(#[trigger] r@[i], groups@[i].0, expected@, groups@[i].1@, window@),
{
    let n = groups.len();
    let mut r: Vec<FiberMatchResult> = Vec::new();
    let mut i: usize = 0;
    while i < n
        invariant
            n == groups@.len(),
            i <= n,
            r@.len() == i,
            forall|k: int| 0 <= k < i ==> is_comparison(#[trigger] r@[k], groups@[k].0, expected@, groups@[k].1@, window@),
        decreases n - i,
    {
        let c = compare_fiber(groups[i].0, expected, &groups[i].1, window);
        r.push(c);
        i += 1;
    }
    r
}

/// The groups after the memberships of the results for each log in turn.
pub open spec fn add_all(g: Seq<(u128, Seq<u128>)>, rss: Seq<Seq<ProcessResult>>) -> Seq<(u128, Seq<u128>)>
    decreases rss.len(),
{
    if rss.len() == 0 {
        g
    } else {
        add_results(add_all(g, rss.drop_last()), rss.last())
    }
}

/// What processing a stored log with each fiber type reported: one result
/// per fiber type, in which the log joins one fiber where a pattern of the
/// type matches it, and none otherwise.
pub open spec fn reports_of_log(rs: Seq<ProcessResult>, fts: Seq<CompiledFiberType>, log: StoredLog) -> bool {
    &&& rs.len() == fts.len()
    &&& forall|i: int| 0 <= i < rs.len() ==> reports_membership(#[trigger] rs[i], fts[i], log.log_id, log.source_id@, log.raw_text@)
}

/// `r` compares each group, once, with the logs expected, in some order:
/// `perm` maps each result to its group.
pub open spec fn compares_groups(r: Seq<FiberMatchResult>, g: Seq<(u128, Seq<u128>)>, expected: Seq<u128>, window: Seq<StoredLog>) -> bool {
    exists|perm: Seq<int>| {
        &&& perm.len() == r.len()
        &&& r.len() == g.len()
        &&& perm.no_duplicates()
        &&& forall|i: int| 0 <= i < perm.len() ==> 0 <= #[trigger] perm[i] < g.len()
            && is_comparison(r[i], g[perm[i]].0, expected, g[perm[i]].1, window)
    }
}

/// `r` compares the logs of some fiber with the logs expected.
pub open spec fn compares_some_fiber(r: FiberMatchResult, expected: Seq<u128>, window: Seq<StoredLog>) -> bool {
    exists|f: u128, ls: Seq<u128>| is_comparison(r, f, expected, ls, window)
}

/// Runs a fiber processor over the logs of the window, in order, groups the
/// memberships it reports by fiber, and compares each group with the logs
/// expected; the comparisons come highest intersection over union first.
pub fn test_fibers(processor: &mut FiberProcessor, expected: &Vec<u128>, window: &Vec<StoredLog>) -> (r: Vec<FiberMatchResult>)
    requires
        old(processor).wf(),
        forall|i: int| 0 <= i < window@.len() ==> valid_timestamp(#[trigger] window@[i].timestamp),
    ensures
        final(processor).wf(),
        final(processor).fiber_types() == old(processor).fiber_types(),
        ranked(r@),
        forall|i: int| 0 <= i < r@.len() ==> compares_some_fiber(#[trigger] r@[i], expected@, window@),
        exists|rss: Seq<Seq<ProcessResult>>| {
            &&& rss.len() == window@.len()
            &&& forall|k: int| 0 <= k < rss.len() ==> reports_of_log(#[trigger] rss[k], old(processor).fiber_types(), window@[k])
            &&& compares_groups(r@, add_all(Seq::empty(), rss), expected@, window@)
        },
{
    let mut groups: Vec<(u128, Vec<u128>)> = Vec::new();
    let ghost mut rss: Seq<Seq<ProcessResult>> = Seq::empty();
    let n = window.len();
    let mut i: usize = 0;
    while i < n
        invariant
            n == window@.len(),
            i <= n,
            processor.wf(),
            processor.fiber_types() == old(processor).fiber_types(),
            forall|k: int| 0 <= k < n ==> valid_timestamp(#[trigger] window@[k].timestamp),
            rss.len() == i,
            forall|k: int| 0 <= k < i ==> reports_of_log(#[trigger] rss[k], old(processor).fiber_types(), window@[k]),
            groups_view(groups@) == add_all(Seq::empty(), rss),
        decreases n - i,
    {
        let record = record_of(&window[i]);
        let ghost before = *processor;
        let results = processor.process_log(&record);
        proof {
            assert(reports_of_log(results@, old(processor).fiber_types(), window@[i as int])) by {
                assert forall|q: int| 0 <= q < results@.len() implies reports_membership(#[trigger] results@[q],
                    old(processor).fiber_types()[q], window@[i as int].log_id, window@[i as int].source_id@,
                    window@[i as int].raw_text@) by {
                    assert(before.fiber_types()[q] == before.procs()[q].ft());
                }
            }
        }
        collect_memberships(&mut groups, &results);
        proof {
            let next = rss.push(results@);
            assert(next.drop_last() == rss);
            assert forall|k: int| 0 <= k < i + 1 implies reports_of_log(#[trigger] next[k], old(processor).fiber_types(), window@[k]) by {
                if k < i {
                    assert(next[k] == rss[k]);
                }
            }
            rss = next;
        }
        i += 1;
    }
    let compared = compare_groups(&groups, expected, window);
    let ghost c = compared@;
    let ghost g = groups_view(groups@);
    let ranked_results = rank_by_iou(compared);
    proof {
        assert forall|j: int| 0 <= j < c.len() implies is_comparison(#[trigger] c[j], g[j].0, expected@, g[j].1, window@) by {
            assert(g[j] == (groups@[j].0, groups@[j].1@));
        }
        let perm = choose|perm: Seq<int>| {
            &&& perm.len() == ranked_results@.len()
            &&& ranked_results@.len() == c.len()
            &&& perm.no_duplicates()
            &&& forall|i: int| 0 <= i < perm.len() ==> 0 <= #[trigger] perm[i] < c.len() && ranked_results@[i] == c[perm[i]]
        };
        assert forall|i: int| 0 <= i < perm.len() implies 0 <= #[trigger] perm[i] < g.len()
            && is_comparison(ranked_results@[i], g[perm[i]].0, expected@, g[perm[i]].1, window@) by {
            assert(ranked_results@[i] == c[perm[i]]);
        }
        assert(compares_groups(ranked_results@, g, expected@, window@));
        assert forall|i: int| 0 <= i < ranked_results@.len() implies compares_some_fiber(#[trigger] ranked_results@[i], expected@, window@) by {
            assert(ranked_results@[i] == c[perm[i]]);
            assert(is_comparison(ranked_results@[i], g[perm[i]].0, expected@, g[perm[i]].1, window@));
        }
    }
    ranked_results
}

/// A working set must name at least one log.
pub fn check_log_ids(log_ids: &Vec<u128>) -> (r: Result<(), ApiError>)
    ensures
        log_ids@.len() > 0 ==> r is Ok,
        log_ids@.len() == 0 ==> (r matches Err(ApiError::BadRequest(m)) && m@ == "log_ids cannot be empty"@),
{
    if log_ids.len() == 0 {
        Err(ApiError::BadRequest(String::from_str("log_ids cannot be empty")))
    } else {
        Ok(())
    }
}

/// The position of the best match among ranked results: the first, if any.
pub fn best_match_index(results: &Vec<FiberMatchResult>) -> (r: Option<usize>)
    ensures
        results@.len() == 0 ==> r is None,
        results@.len() > 0 ==> r == Some(0usize),
{
    if results.len() == 0 {
        None
    } else {
        Some(0)
    }
}

/// The first of ranked results has an intersection over union at least as
/// high as every other.
pub proof fn law_best_match_highest(s: Seq<FiberMatchResult>)
    requires
        ranked(s),
        s.len() > 0,
    ensures
        forall|i: int| 0 <= i < s.len() ==> iou_at_least(s[0], #[trigger] s[i]),
{
    assert forall|i: int| 0 <= i < s.len() implies iou_at_least(s[0], #[trigger] s[i]) by {
        if i > 0 {
            assert(iou_at_least(s[0], s[i]));
        }
    }
}

} // verus!

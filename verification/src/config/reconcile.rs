use vstd::prelude::*;
use crate::storage::traits::ConfigState;
use crate::text::{chars_of, contains_seq, seq_contains, lines_of, str_lines, views, join_chars, join_with, string_from_chars};

verus! {

/// How the reconciliation of the configuration file and the stored
/// configuration ended.
pub enum ReconcileResult {
    /// The configuration was stored for the first time.
    Initialized { hash: String },
    /// File and store agree.
    NoChange,
    /// The file was brought up to the store.
    FastForwardedFile { from_hash: String, to_hash: String },
    /// The store was brought up to the file.
    FastForwardedDB { from_hash: String, to_hash: String },
    /// Both changed and were merged.
    Merged { base_hash: String, file_hash: String, db_hash: String, merged_hash: String },
    /// A conflict is left for the user to resolve.
    UnresolvedConflict { conflict_file: String },
}

/// Whether a text holds all three git-style conflict markers.
pub open spec fn spec_has_conflict_markers(s: Seq<char>) -> bool {
    seq_contains(s, "<<<<<<<"@) && seq_contains(s, "======="@) && seq_contains(s, ">>>>>>>"@)
}

/// Whether a text holds all three git-style conflict markers.
pub fn has_conflict_markers(content: &str) -> (b: bool)
    ensures
        b == spec_has_conflict_markers(content@),
{
    let c = chars_of(content);
    let m1 = chars_of("<<<<<<<");
    let m2 = chars_of("=======");
    let m3 = chars_of(">>>>>>>");
    contains_seq(c.as_slice(), m1.as_slice()) && contains_seq(c.as_slice(), m2.as_slice()) && contains_seq(c.as_slice(), m3.as_slice())
}

/// The outcome of a three-way merge: the merged text, with conflict
/// markers when the two sides disagree.
pub enum MergeResult {
    Clean(String),
    Conflict(String),
}

pub open spec fn line_at(s: Seq<Seq<char>>, i: int) -> Option<Seq<char>> {
    if 0 <= i < s.len() { Some(s[i]) } else { None }
}

pub open spec fn opt_line(l: Option<Seq<char>>) -> Seq<Seq<char>> {
    match l {
        Some(x) => seq![x],
        None => Seq::empty(),
    }
}

/// The merged lines at position `i` and whether they conflict. The three
/// texts are compared line by line at the same position: a line that no
/// side changed, or that both changed alike, is kept; a line that one side
/// changed takes that change; otherwise both versions are kept between
/// markers, the file's (`theirs`) first.
pub open spec fn merge_step(b: Option<Seq<char>>, o: Option<Seq<char>>, t: Option<Seq<char>>) -> (Seq<Seq<char>>, bool) {
    if b == o && b == t {
        (opt_line(b), false)
    } else if o == t {
        (opt_line(o), false)
    } else if b == o {
        (opt_line(t), false)
    } else if b == t {
        (opt_line(o), false)
    } else {
        (seq!["<<<<<<< FILE"@] + opt_line(t) + seq!["======="@] + opt_line(o) + seq![">>>>>>> DB"@], true)
    }
}

/// The merged lines of positions `0..n` and whether any conflicts.
pub open spec fn merge_lines(base: Seq<Seq<char>>, ours: Seq<Seq<char>>, theirs: Seq<Seq<char>>, n: int) -> (Seq<Seq<char>>, bool)
    decreases n,
{
    if n <= 0 {
        (Seq::empty(), false)
    } else {
        let r = merge_lines(base, ours, theirs, n - 1);
        let st = merge_step(line_at(base, n - 1), line_at(ours, n - 1), line_at(theirs, n - 1));
        (r.0 + st.0, r.1 || st.1)
    }
}

pub open spec fn max3(a: int, b: int, c: int) -> int {
    if a >= b && a >= c { a } else if b >= c { b } else { c }
}

/// The three-way merge of two versions of a text with their common base.
pub open spec fn spec_merge_three_way(base: Seq<char>, ours: Seq<char>, theirs: Seq<char>) -> (Seq<char>, bool) {
    let bl = str_lines(base);
    let ol = str_lines(ours);
    let tl = str_lines(theirs);
    let m = merge_lines(bl, ol, tl, max3(bl.len() as int, ol.len() as int, tl.len() as int));
    (join_with(m.0, seq!['\n']), m.1)
}

proof fn lemma_merge_one_side(b: Seq<Seq<char>>, o: Seq<Seq<char>>, t: Seq<Seq<char>>, n: int, ours_kept: bool)
    requires
        0 <= n,
        ours_kept ==> o == b,
        !ours_kept ==> t == b,
    ensures
        merge_lines(b, o, t, n) == (if ours_kept {
            t.take(if n <= t.len() { n } else { t.len() as int })
        } else {
            o.take(if n <= o.len() { n } else { o.len() as int })
        }, false),
    decreases n,
{
    if n > 0 {
        lemma_merge_one_side(b, o, t, n - 1, ours_kept);
        let c = if ours_kept { t } else { o };
        let k = if n - 1 <= c.len() { n - 1 } else { c.len() as int };
        if n - 1 < c.len() {
            assert(c.take(n) == c.take(n - 1) + seq![c[n - 1]]);
        } else {
            assert(c.take(c.len() as int) + Seq::<Seq<char>>::empty() == c.take(c.len() as int));
        }
    }
}

proof fn lemma_merge_same_sides(b: Seq<Seq<char>>, o: Seq<Seq<char>>, n: int)
    requires
        0 <= n,
    ensures
        merge_lines(b, o, o, n) == (o.take(if n <= o.len() { n } else { o.len() as int }), false),
    decreases n,
{
    if n > 0 {
        lemma_merge_same_sides(b, o, n - 1);
        if n - 1 < o.len() {
            assert(o.take(n) == o.take(n - 1) + seq![o[n - 1]]);
        } else {
            assert(o.take(o.len() as int) + Seq::<Seq<char>>::empty() == o.take(o.len() as int));
        }
    }
}

/// Law: when one side of a three-way merge has the lines of the base, the
/// merge is clean and gives the other side's lines; when both sides have
/// the same lines, it is clean and gives them (lines joined by newlines).
pub proof fn law_merge_with_unchanged_side(base: Seq<char>, ours: Seq<char>, theirs: Seq<char>)
    ensures
        str_lines(base) == str_lines(ours)
            ==> spec_merge_three_way(base, ours, theirs) == (join_with(str_lines(theirs), seq!['\n']), false),
        str_lines(base) == str_lines(theirs) || str_lines(ours) == str_lines(theirs)
            ==> spec_merge_three_way(base, ours, theirs) == (join_with(str_lines(ours), seq!['\n']), false),
{
    let bl = str_lines(base);
    let ol = str_lines(ours);
    let tl = str_lines(theirs);
    let n = max3(bl.len() as int, ol.len() as int, tl.len() as int);
    assert(tl.take(tl.len() as int) == tl);
    assert(ol.take(ol.len() as int) == ol);
    if bl == ol {
        lemma_merge_one_side(bl, ol, tl, n, true);
    }
    if bl == tl {
        lemma_merge_one_side(bl, ol, tl, n, false);
    }
    if ol == tl {
        lemma_merge_same_sides(bl, ol, n);
    }
}

fn get_line(v: &Vec<Vec<char>>, i: usize) -> (r: Option<&Vec<char>>)
    ensures
        match r {
            Some(l) => line_at(views(v@), i as int) == Some(l@),
            None => line_at(views(v@), i as int) is None,
        },
{
    if i < v.len() { Some(&v[i]) } else { None }
}

fn same_line(a: Option<&Vec<char>>, b: Option<&Vec<char>>) -> (r: bool)
    ensures
        r == (match (a, b) {
            (Some(x), Some(y)) => x@ == y@,
            (None, None) => true,
            _ => false,
        }),
{
    match (a, b) {
        (Some(x), Some(y)) => crate::text::chars_equal(x.as_slice(), y.as_slice()),
        (None, None) => true,
        _ => false,
    }
}

fn push_opt(out: &mut Vec<Vec<char>>, l: Option<&Vec<char>>)
    ensures
        views(final(out)@) == views(old(out)@) + opt_line(match l { Some(x) => Some(x@), None => None::<Seq<char>> }),
{
    match l {
        Some(x) => {
            let ghost o0 = out@;
            out.push(x.clone());
            assert(views(out@) =~= views(o0) + seq![x@]);
        },
        None => {
            assert(views(out@) =~= views(out@) + Seq::<Seq<char>>::empty());
        },
    }
}

fn push_text(out: &mut Vec<Vec<char>>, t: &str)
    ensures
        views(final(out)@) == views(old(out)@).push(t@),
{
    let ghost o0 = out@;
    out.push(chars_of(t));
    assert(views(out@) =~= views(o0).push(t@));
}

/// Merges two versions of a text (`ours`: the stored one, `theirs`: the
/// file) line by line against their common base.
pub fn merge_three_way(base: &str, ours: &str, theirs: &str) -> (r: MergeResult)
    ensures
        match r {
            MergeResult::Clean(s) => spec_merge_three_way(base@, ours@, theirs@) == (s@, false),
            MergeResult::Conflict(s) => spec_merge_three_way(base@, ours@, theirs@) == (s@, true),
        },
{
    let bc = chars_of(base);
    let oc = chars_of(ours);
    let tc = chars_of(theirs);
    let bl = lines_of(bc.as_slice());
    let ol = lines_of(oc.as_slice());
    let tl = lines_of(tc.as_slice());
    let ghost (bv, ov, tv) = (views(bl@), views(ol@), views(tl@));
    let n = if bl.len() >= ol.len() && bl.len() >= tl.len() {
        bl.len()
    } else if ol.len() >= tl.len() {
        ol.len()
    } else {
        tl.len()
    };
    let mut result: Vec<Vec<char>> = Vec::new();
    let mut conflict = false;
    let mut i: usize = 0;
    while i < n
        invariant
            i <= n,
            bv == views(bl@),
            ov == views(ol@),
            tv == views(tl@),
            (views(result@), conflict) == merge_lines(bv, ov, tv, i as int),
        decreases n - i,
    {
        let b = get_line(&bl, i);
        let o = get_line(&ol, i);
        let t = get_line(&tl, i);
        let ghost r0 = views(result@);
        if same_line(b, o) && same_line(b, t) {
            push_opt(&mut result, b);
        } else if same_line(o, t) {
            push_opt(&mut result, o);
        } else if same_line(b, o) {
            push_opt(&mut result, t);
        } else if same_line(b, t) {
            push_opt(&mut result, o);
        } else {
            conflict = true;
            push_text(&mut result, "<<<<<<< FILE");
            push_opt(&mut result, t);
            push_text(&mut result, "=======");
            push_opt(&mut result, o);
            push_text(&mut result, ">>>>>>> DB");
            assert(views(result@) =~= r0 + merge_step(line_at(bv, i as int), line_at(ov, i as int), line_at(tv, i as int)).0);
        }
        i += 1;
    }
    let sep = vec!['\n'];
    let merged = join_chars(&result, sep.as_slice());
    assert(sep@ =~= seq!['\n']);
    let s = string_from_chars(merged.as_slice());
    if conflict {
        MergeResult::Conflict(s)
    } else {
        MergeResult::Clean(s)
    }
}

/// How the file and the stored configuration relate, given the hashes
/// last seen of each.
#[derive(Clone, Copy, Debug, PartialEq, Eq, Structural)]
pub enum Divergence {
    /// The store moved on since the last run; the file did not.
    StoreAhead,
    /// The file moved on since the last run; the store did not.
    FileAhead,
    /// Both moved on (or nothing is known of the last run).
    Diverged,
}

pub open spec fn opt_view(o: Option<String>) -> Option<Seq<char>> {
    match o {
        Some(s) => Some(s@),
        None => None,
    }
}

/// The relation of the two hashes to the state of the last run.
pub open spec fn spec_divergence(file_hash: Seq<char>, db_hash: Seq<char>, state: Option<ConfigState>) -> Divergence {
    match state {
        Some(st) => if opt_view(st.file_version_hash) == Some(file_hash) && opt_view(st.db_version_hash) != Some(db_hash) {
            Divergence::StoreAhead
        } else if opt_view(st.db_version_hash) == Some(db_hash) && opt_view(st.file_version_hash) != Some(file_hash) {
            Divergence::FileAhead
        } else {
            Divergence::Diverged
        },
        None => Divergence::Diverged,
    }
}

fn opt_is(o: &Option<String>, s: &str) -> (b: bool)
    ensures
        b == (opt_view(*o) == Some(s@)),
{
    match o {
        Some(x) => {
            let xc = chars_of(x.as_str());
            let sc = chars_of(s);
            crate::text::chars_equal(xc.as_slice(), sc.as_slice())
        },
        None => false,
    }
}

/// Which of the cases of reconciliation applies when the file and the
/// store differ.
pub fn classify_divergence(file_hash: &str, db_hash: &str, state: &Option<ConfigState>) -> (d: Divergence)
    ensures
        d == spec_divergence(file_hash@, db_hash@, *state),
{
    match state {
        Some(st) => {
            let file_known = opt_is(&st.file_version_hash, file_hash);
            let db_known = opt_is(&st.db_version_hash, db_hash);
            if file_known && !db_known {
                Divergence::StoreAhead
            } else if db_known && !file_known {
                Divergence::FileAhead
            } else {
                Divergence::Diverged
            }
        },
        None => Divergence::Diverged,
    }
}

} // verus!

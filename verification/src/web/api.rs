use vstd::prelude::*;
use crate::config::types::trim_start_ws;
use crate::source::reader::{is_whitespace, spec_is_whitespace};
use crate::text::{
    append_str, chars_of, join_chars, join_with, lines_of, occurs_at, starts_with_seq, str_lines, string_from_chars,
    string_views, views,
};
use crate::time::Timestamp;

verus! {

/// Errors of the web API, each with its message.
#[derive(Debug)]
pub enum ApiError {
    NotFound(String),
    BadRequest(String),
    Conflict(String),
    Internal(String),
}

/// The most items one page of a listing holds.
pub const MAX_PAGE: usize = 1000;

/// The page size asked for, capped at `MAX_PAGE`.
pub open spec fn capped_limit(limit: usize) -> usize {
    if limit < MAX_PAGE { limit } else { MAX_PAGE }
}

/// The default page size.
pub fn default_limit() -> (n: usize)
    ensures
        n == 100,
{
    100
}

/// Query of the log listing.
pub struct ListLogsParams {
    pub start: Option<Timestamp>,
    pub end: Option<Timestamp>,
    pub source: Option<String>,
    pub limit: usize,
    pub offset: usize,
}

impl ListLogsParams {
    /// The page size, at most `MAX_PAGE`.
    pub fn limit(&self) -> (n: usize)
        ensures
            n == capped_limit(self.limit),
    {
        if self.limit < MAX_PAGE { self.limit } else { MAX_PAGE }
    }

    pub fn offset(&self) -> (n: usize)
        ensures
            n == self.offset,
    {
        self.offset
    }
}

/// Query of the fiber listing.
pub struct ListFibersParams {
    pub fiber_type: Option<String>,
    pub closed: Option<bool>,
    pub limit: usize,
    pub offset: usize,
}

impl ListFibersParams {
    /// The page size, at most `MAX_PAGE`.
    pub fn limit(&self) -> (n: usize)
        ensures
            n == capped_limit(self.limit),
    {
        if self.limit < MAX_PAGE { self.limit } else { MAX_PAGE }
    }

    pub fn offset(&self) -> (n: usize)
        ensures
            n == self.offset,
    {
        self.offset
    }
}

/// Paging of a listing.
pub struct PaginationParams {
    pub limit: usize,
    pub offset: usize,
}

impl PaginationParams {
    /// The page size, at most `MAX_PAGE`.
    pub fn limit(&self) -> (n: usize)
        ensures
            n == capped_limit(self.limit),
    {
        if self.limit < MAX_PAGE { self.limit } else { MAX_PAGE }
    }

    pub fn offset(&self) -> (n: usize)
        ensures
            n == self.offset,
    {
        self.offset
    }
}

// ---------------------------------------------------------------------------
// Log points of a fiber
// ---------------------------------------------------------------------------

/// A log of a fiber, drawn on a time line: when, and from which source.
#[derive(Debug)]
pub struct LogPoint {
    pub timestamp: Timestamp,
    pub source_id: String,
}

pub open spec fn point_views(v: Seq<LogPoint>) -> Seq<(Timestamp, Seq<char>)> {
    v.map_values(|p: LogPoint| (p.timestamp, p.source_id@))
}

pub open spec fn pair_views(v: Seq<(Timestamp, String)>) -> Seq<(Timestamp, Seq<char>)> {
    v.map_values(|p: (Timestamp, String)| (p.0, p.1@))
}

/// Appends a point unless it equals the last one.
pub open spec fn push_unique(r: Seq<(Timestamp, Seq<char>)>, p: (Timestamp, Seq<char>)) -> Seq<(Timestamp, Seq<char>)> {
    if r.len() > 0 && r.last() == p { r } else { r.push(p) }
}

/// The kept points after looking at the first `k` points (`k >= 1`): the
/// first point, and both points of each change of source.
pub open spec fn kept_points(pts: Seq<(Timestamp, Seq<char>)>, k: int) -> Seq<(Timestamp, Seq<char>)>
    decreases k,
{
    if k <= 1 {
        push_unique(Seq::empty(), pts[0])
    } else {
        let r = kept_points(pts, k - 1);
        if pts[k - 1].1 != pts[k - 2].1 {
            push_unique(push_unique(r, pts[k - 2]), pts[k - 1])
        } else {
            r
        }
    }
}

/// The points worth drawing: the first, the last, and both sides of every
/// change of source, without a point twice in a row.
pub open spec fn spec_simplify(pts: Seq<(Timestamp, Seq<char>)>) -> Seq<(Timestamp, Seq<char>)> {
    if pts.len() == 0 {
        Seq::empty()
    } else if pts.len() == 1 {
        seq![pts[0]]
    } else {
        push_unique(kept_points(pts, pts.len() as int), pts.last())
    }
}

fn push_point(r: &mut Vec<LogPoint>, t: Timestamp, s: &String)
    ensures
        point_views(final(r)@) == push_unique(point_views(old(r)@), (t, s@)),
{
    let n = r.len();
    if n > 0 && r[n - 1].timestamp == t && r[n - 1].source_id == *s {
        assert(point_views(r@).last() == (t, s@));
        return;
    }
    let ghost prev = r@;
    r.push(LogPoint { timestamp: t, source_id: s.clone() });
    assert(point_views(r@) =~= point_views(prev).push((t, s@)));
    proof {
        if n > 0 {
            assert(point_views(prev).last() == (prev[n - 1].timestamp, prev[n - 1].source_id@));
        }
    }
}

/// Keeps the start, the end and the points where the source changes.
pub fn simplify_log_points(points: Vec<(Timestamp, String)>) -> (r: Vec<LogPoint>)
    ensures
        point_views(r@) == spec_simplify(pair_views(points@)),
{
    let ghost pv = pair_views(points@);
    let n = points.len();
    let mut result: Vec<LogPoint> = Vec::new();
    if n == 0 {
        assert(point_views(result@) =~= Seq::<(Timestamp, Seq<char>)>::empty());
        return result;
    }
    if n == 1 {
        result.push(LogPoint { timestamp: points[0].0, source_id: points[0].1.clone() });
        assert(point_views(result@) =~= seq![pv[0]]);
        return result;
    }
    assert(point_views(result@) =~= Seq::<(Timestamp, Seq<char>)>::empty());
    push_point(&mut result, points[0].0, &points[0].1);
    let mut i: usize = 1;
    while i < n
        invariant
            1 <= i <= n == points@.len(),
            pv == pair_views(points@),
            point_views(result@) == kept_points(pv, i as int),
        decreases n - i,
    {
        assert(pv[i as int] == (points@[i as int].0, points@[i as int].1@));
        assert(pv[i as int - 1] == (points@[i as int - 1].0, points@[i as int - 1].1@));
        if points[i].1 != points[i - 1].1 {
            push_point(&mut result, points[i - 1].0, &points[i - 1].1);
            push_point(&mut result, points[i].0, &points[i].1);
        }
        i += 1;
    }
    assert(pv.last() == (points@[n - 1].0, points@[n - 1].1@));
    push_point(&mut result, points[n - 1].0, &points[n - 1].1);
    result
}

proof fn lemma_push_unique_keeps(r: Seq<(Timestamp, Seq<char>)>, p: (Timestamp, Seq<char>), x: (Timestamp, Seq<char>))
    ensures
        r.contains(x) ==> push_unique(r, p).contains(x),
        push_unique(r, p).contains(p),
{
    if r.contains(x) {
        let k = choose|k: int| 0 <= k < r.len() && r[k] == x;
        if !(r.len() > 0 && r.last() == p) {
            assert(r.push(p)[k] == x);
        }
    }
    if r.len() > 0 && r.last() == p {
        assert(r[r.len() - 1] == p);
    } else {
        assert(r.push(p)[r.len() as int] == p);
    }
}

proof fn lemma_kept_grows(pts: Seq<(Timestamp, Seq<char>)>, j: int, k: int, x: (Timestamp, Seq<char>))
    requires
        1 <= j <= k <= pts.len(),
        kept_points(pts, j).contains(x),
    ensures
        kept_points(pts, k).contains(x),
    decreases k - j,
{
    if j < k {
        lemma_kept_grows(pts, j, k - 1, x);
        let r = kept_points(pts, k - 1);
        if pts[k - 1].1 != pts[k - 2].1 {
            lemma_push_unique_keeps(r, pts[k - 2], x);
            lemma_push_unique_keeps(push_unique(r, pts[k - 2]), pts[k - 1], x);
        }
    }
}

/// Law: the simplified points hold the first and the last point, and both
/// points on either side of every change of source.
pub proof fn law_simplify_keeps_transitions(pts: Seq<(Timestamp, Seq<char>)>, i: int)
    requires
        1 <= i < pts.len(),
        pts[i].1 != pts[i - 1].1,
    ensures
        spec_simplify(pts).contains(pts[0]),
        spec_simplify(pts).contains(pts.last()),
        spec_simplify(pts).contains(pts[i - 1]),
        spec_simplify(pts).contains(pts[i]),
{
    let n = pts.len() as int;
    let k = kept_points(pts, n);
    lemma_push_unique_keeps(Seq::empty(), pts[0], pts[0]);
    lemma_kept_grows(pts, 1, n, pts[0]);
    let r = kept_points(pts, i);
    lemma_push_unique_keeps(r, pts[i - 1], pts[i - 1]);
    lemma_push_unique_keeps(push_unique(r, pts[i - 1]), pts[i], pts[i - 1]);
    lemma_push_unique_keeps(push_unique(r, pts[i - 1]), pts[i], pts[i]);
    assert(kept_points(pts, i + 1) == push_unique(push_unique(r, pts[i - 1]), pts[i]));
    lemma_kept_grows(pts, i + 1, n, pts[i - 1]);
    lemma_kept_grows(pts, i + 1, n, pts[i]);
    lemma_push_unique_keeps(k, pts.last(), pts[0]);
    lemma_push_unique_keeps(k, pts.last(), pts[i - 1]);
    lemma_push_unique_keeps(k, pts.last(), pts[i]);
}


// ---------------------------------------------------------------------------
// Editing the fiber types of a configuration text, line by line
// ---------------------------------------------------------------------------

/// How many bytes UTF-8 takes for a character.
pub open spec fn utf8_width(c: char) -> nat {
    if (c as u32) < 0x80 {
        1
    } else if (c as u32) < 0x800 {
        2
    } else if (c as u32) < 0x10000 {
        3
    } else {
        4
    }
}

/// The bytes of the leading whitespace of a line: its indent.
pub open spec fn indent_of(s: Seq<char>) -> nat
    decreases s.len(),
{
    if s.len() > 0 && spec_is_whitespace(s[0]) {
        utf8_width(s[0]) + indent_of(s.drop_first())
    } else {
        0
    }
}

/// A line with something other than a comment on it.
pub open spec fn is_content(t: Seq<char>) -> bool {
    t.len() > 0 && t[0] != '#'
}

/// The (trimmed) line opens the fiber types section.
pub open spec fn is_section_header(t: Seq<char>) -> bool {
    occurs_at(t, "fiber_types:"@, 0)
}

/// The (trimmed) line opens the fiber type `name`.
pub open spec fn is_entry_of(t: Seq<char>, name: Seq<char>) -> bool {
    occurs_at(t, name + ":"@, 0) && !occurs_at(t, name + "::"@, 0)
}

/// `n` spaces.
pub open spec fn spaces(n: nat) -> Seq<char> {
    Seq::new(n, |i: int| ' ')
}

/// Each line with `n` spaces in front.
pub open spec fn indent_all(ls: Seq<Seq<char>>, n: nat) -> Seq<Seq<char>> {
    ls.map_values(|l: Seq<char>| spaces(n) + l)
}

fn char_width(c: char) -> (w: u128)
    ensures
        w == utf8_width(c),
{
    let v = c as u32;
    if v < 0x80 {
        1
    } else if v < 0x800 {
        2
    } else if v < 0x10000 {
        3
    } else {
        4
    }
}

/// A line without its leading whitespace, and the indent it had.
fn line_shape(line: &Vec<char>) -> (r: (Vec<char>, u128))
    ensures
        r.0@ == trim_start_ws(line@),
        r.1 == indent_of(line@),
        r.1 <= 4 * line@.len(),
{
    let mut k: usize = 0;
    let mut w: u128 = 0;
    assert(line@.skip(0) =~= line@);
    while k < line.len() && is_whitespace(line[k])
        invariant
            k <= line@.len(),
            w <= 4 * k,
            trim_start_ws(line@) == trim_start_ws(line@.skip(k as int)),
            indent_of(line@) == w + indent_of(line@.skip(k as int)),
        decreases line@.len() - k,
    {
        assert(line@.skip(k as int).drop_first() =~= line@.skip(k as int + 1));
        w = w + char_width(line[k]);
        k += 1;
    }
    let mut t: Vec<char> = Vec::new();
    let mut i: usize = k;
    while i < line.len()
        invariant
            k <= i <= line@.len(),
            t@ == line@.subrange(k as int, i as int),
        decreases line@.len() - i,
    {
        t.push(line[i]);
        assert(t@ =~= line@.subrange(k as int, i as int + 1));
        i += 1;
    }
    assert(t@ =~= line@.skip(k as int));
    (t, w)
}

fn content(t: &Vec<char>) -> (b: bool)
    ensures
        b == is_content(t@),
{
    t.len() > 0 && t[0] != '#'
}

fn section_header(t: &Vec<char>) -> (b: bool)
    ensures
        b == is_section_header(t@),
{
    starts_with_seq(t.as_slice(), chars_of("fiber_types:").as_slice())
}

fn entry_of(t: &Vec<char>, name: &str) -> (b: bool)
    ensures
        b == is_entry_of(t@, name@),
{
    let mut one: Vec<char> = chars_of(name);
    one.push(':');
    let mut two: Vec<char> = chars_of(name);
    two.push(':');
    two.push(':');
    proof {
        reveal_strlit(":");
        reveal_strlit("::");
        assert(one@ =~= name@ + ":"@);
        assert(two@ =~= name@ + "::"@);
    }
    starts_with_seq(t.as_slice(), one.as_slice()) && !starts_with_seq(t.as_slice(), two.as_slice())
}

fn indented(n: u128, l: &Vec<char>) -> (r: Vec<char>)
    ensures
        r@ == spaces(n as nat) + l@,
{
    let mut r: Vec<char> = Vec::new();
    let mut k: u128 = 0;
    while k < n
        invariant
            k <= n,
            r@ == spaces(k as nat),
        decreases n - k,
    {
        r.push(' ');
        assert(r@ =~= spaces((k + 1) as nat));
        k += 1;
    }
    let mut i: usize = 0;
    while i < l.len()
        invariant
            i <= l@.len(),
            r@ == spaces(n as nat) + l@.take(i as int),
        decreases l@.len() - i,
    {
        r.push(l[i]);
        assert(r@ =~= spaces(n as nat) + l@.take(i as int + 1));
        i += 1;
    }
    assert(l@.take(l@.len() as int) =~= l@);
    r
}

fn push_indented(out: &mut Vec<Vec<char>>, ls: &Vec<Vec<char>>, n: u128)
    ensures
        views(final(out)@) == views(old(out)@) + indent_all(views(ls@), n as nat),
{
    let ghost start = views(out@);
    let mut i: usize = 0;
    while i < ls.len()
        invariant
            i <= ls@.len(),
            views(out@) == start + indent_all(views(ls@), n as nat).take(i as int),
        decreases ls@.len() - i,
    {
        let l = indented(n, &ls[i]);
        let ghost prev = out@;
        out.push(l);
        assert(views(out@) =~= views(prev).push(spaces(n as nat) + ls@[i as int]@));
        assert(indent_all(views(ls@), n as nat).take(i as int + 1)
            =~= indent_all(views(ls@), n as nat).take(i as int).push(spaces(n as nat) + ls@[i as int]@));
        i += 1;
    }
    assert(indent_all(views(ls@), n as nat).take(ls@.len() as int) =~= indent_all(views(ls@), n as nat));
}

fn push_line(out: &mut Vec<Vec<char>>, l: &Vec<char>)
    ensures
        views(final(out)@) == views(old(out)@).push(l@),
{
    let ghost prev = out@;
    out.push(l.clone());
    assert(views(out@) =~= views(prev).push(l@));
}

fn joined_lines(out: &Vec<Vec<char>>) -> (s: String)
    ensures
        s@ == join_with(views(out@), seq!['\n']),
{
    let mut sep: Vec<char> = Vec::new();
    sep.push('\n');
    let j = join_chars(out, sep.as_slice());
    string_from_chars(j.as_slice())
}

fn not_found_in_config(name: &str) -> (e: ApiError)
    ensures
        e matches ApiError::NotFound(m) && m@ == "Fiber type '"@ + name@ + "' not found in config"@,
{
    let mut m: Vec<char> = Vec::new();
    append_str(&mut m, "Fiber type '");
    append_str(&mut m, name);
    append_str(&mut m, "' not found in config");
    assert(m@ =~= "Fiber type '"@ + name@ + "' not found in config"@);
    ApiError::NotFound(string_from_chars(m.as_slice()))
}

/// Where a line-by-line edit stands: the lines written so far, whether it
/// is inside the fiber types section, the indent of the section's entries
/// once its first entry is seen, the indent of the entry whose lines it is
/// skipping, if any, and whether the entry was found.
pub struct EditState {
    pub out: Seq<Seq<char>>,
    pub in_section: bool,
    pub child: Option<nat>,
    pub skipping: Option<nat>,
    pub found: bool,
}

/// The indent of the section's entries: that of its first content line.
pub open spec fn entry_indent(st: EditState, t: Seq<char>, ind: nat) -> Option<nat> {
    if st.child is None && is_content(t) { Some(ind) } else { st.child }
}

/// The (trimmed) line, indented by `ind`, opens the fiber type `name`: it is
/// a direct child of the fiber types section with that name.
pub open spec fn opens_entry(st: EditState, t: Seq<char>, ind: nat, name: Seq<char>) -> bool {
    is_content(t) && entry_indent(st, t, ind) == Some(ind) && is_entry_of(t, name)
}

/// A line that is not skipped, while deleting the entry `name`. A top-level
/// line ends the section before anything else is tested, so only a direct
/// child of the section is ever taken for the entry.
pub open spec fn delete_visit(st: EditState, line: Seq<char>, name: Seq<char>) -> EditState {
    let t = trim_start_ws(line);
    let ind = indent_of(line);
    if is_section_header(t) {
        EditState { out: st.out.push(line), in_section: true, child: None, skipping: None, found: st.found }
    } else if st.in_section && !(is_content(t) && ind == 0) {
        let c = entry_indent(st, t, ind);
        if opens_entry(st, t, ind, name) {
            EditState { out: st.out, in_section: true, child: c, skipping: Some(ind), found: true }
        } else {
            EditState { out: st.out.push(line), in_section: true, child: c, skipping: None, found: st.found }
        }
    } else {
        EditState { out: st.out.push(line), in_section: false, child: st.child, skipping: None, found: st.found }
    }
}

/// A line that is not skipped, while replacing the entry `name` by
/// `new_lines`; the section ends as for `delete_visit`.
pub open spec fn update_visit(st: EditState, line: Seq<char>, name: Seq<char>, new_lines: Seq<Seq<char>>) -> EditState {
    let t = trim_start_ws(line);
    let ind = indent_of(line);
    if is_section_header(t) {
        EditState { out: st.out.push(line), in_section: true, child: None, skipping: None, found: st.found }
    } else if st.in_section && !(is_content(t) && ind == 0) {
        let c = entry_indent(st, t, ind);
        if opens_entry(st, t, ind, name) {
            EditState { out: st.out + indent_all(new_lines, ind), in_section: true, child: c, skipping: Some(ind), found: true }
        } else {
            EditState { out: st.out.push(line), in_section: true, child: c, skipping: None, found: st.found }
        }
    } else {
        EditState { out: st.out.push(line), in_section: false, child: st.child, skipping: None, found: st.found }
    }
}

/// The line goes with the entry being skipped: it is blank, a comment, or
/// indented deeper than the entry.
pub open spec fn skipped(st: EditState, line: Seq<char>) -> bool {
    st.skipping matches Some(fi) && !(is_content(trim_start_ws(line)) && indent_of(line) <= fi)
}

/// The edit after each line, deleting the entry `name`.
pub open spec fn delete_run(lines: Seq<Seq<char>>, name: Seq<char>) -> EditState
    decreases lines.len(),
{
    if lines.len() == 0 {
        EditState { out: Seq::empty(), in_section: false, child: None, skipping: None, found: false }
    } else {
        let st = delete_run(lines.drop_last(), name);
        if skipped(st, lines.last()) { st } else { delete_visit(st, lines.last(), name) }
    }
}

/// The edit after each line, replacing the entry `name` by `new_lines`.
pub open spec fn update_run(lines: Seq<Seq<char>>, name: Seq<char>, new_lines: Seq<Seq<char>>) -> EditState
    decreases lines.len(),
{
    if lines.len() == 0 {
        EditState { out: Seq::empty(), in_section: false, child: None, skipping: None, found: false }
    } else {
        let st = update_run(lines.drop_last(), name, new_lines);
        if skipped(st, lines.last()) { st } else { update_visit(st, lines.last(), name, new_lines) }
    }
}

/// The configuration text without the fiber type `name` (its line and the
/// lines under it), comments and layout kept; `None` when no such fiber
/// type is in the fiber types section.
pub open spec fn spec_delete_fiber_type(yaml: Seq<char>, name: Seq<char>) -> Option<Seq<char>> {
    let st = delete_run(str_lines(yaml), name);
    if st.found { Some(join_with(st.out, seq!['\n'])) } else { None }
}

/// Removes a fiber type from the configuration text, keeping comments and
/// the layout of everything else.
pub fn delete_fiber_type_from_yaml(yaml: &str, name: &str) -> (r: Result<String, ApiError>)
    ensures
        match r {
            Ok(s) => spec_delete_fiber_type(yaml@, name@) == Some(s@),
            Err(e) => spec_delete_fiber_type(yaml@, name@) is None
                && (e matches ApiError::NotFound(m) && m@ == "Fiber type '"@ + name@ + "' not found in config"@),
        },
{
    let lines = lines_of(chars_of(yaml).as_slice());
    let ghost ls = views(lines@);
    let mut out: Vec<Vec<char>> = Vec::new();
    let mut in_section = false;
    let mut skipping: Option<u128> = None;
    let mut child: Option<u128> = None;
    let mut found = false;
    let mut i: usize = 0;
    assert(ls.take(0) =~= Seq::<Seq<char>>::empty());
    assert(views(out@) =~= Seq::<Seq<char>>::empty());
    while i < lines.len()
        invariant
            i <= lines@.len(),
            ls == views(lines@),
            ls == str_lines(yaml@),
            ({
                let st = delete_run(ls.take(i as int), name@);
                &&& views(out@) == st.out
                &&& in_section == st.in_section
                &&& found == st.found
                &&& match child {
                    Some(c) => st.child == Some(c as nat),
                    None => st.child is None,
                }
                &&& match skipping {
                    Some(f) => st.skipping == Some(f as nat),
                    None => st.skipping is None,
                }
            }),
        decreases lines@.len() - i,
    {
        assert(ls.take(i as int + 1).drop_last() =~= ls.take(i as int));
        assert(ls.take(i as int + 1).last() == lines@[i as int]@);
        let line = &lines[i];
        let (t, ind) = line_shape(line);
        let is_skipped = match skipping {
            Some(f) => !(content(&t) && ind <= f),
            None => false,
        };
        if !is_skipped {
            skipping = None;
            if section_header(&t) {
                push_line(&mut out, line);
                in_section = true;
                child = None;
            } else if in_section && !(content(&t) && ind == 0) {
                if child.is_none() && content(&t) {
                    child = Some(ind);
                }
                if content(&t) && child == Some(ind) && entry_of(&t, name) {
                    skipping = Some(ind);
                    found = true;
                } else {
                    push_line(&mut out, line);
                }
            } else {
                push_line(&mut out, line);
                in_section = false;
            }
        }
        i += 1;
    }
    assert(ls.take(lines@.len() as int) =~= ls);
    if found {
        Ok(joined_lines(&out))
    } else {
        Err(not_found_in_config(name))
    }
}


/// The text without trailing colons.
pub open spec fn trim_colons(t: Seq<char>) -> Seq<char>
    decreases t.len(),
{
    if t.len() > 0 && t.last() == ':' { trim_colons(t.drop_last()) } else { t }
}

/// Where the scan for the names of the fiber types stands.
pub struct NameScan {
    pub in_section: bool,
    pub done: bool,
    pub names: Seq<Seq<char>>,
}

/// The names seen after each line: in the fiber types section, each line
/// indented by two that ends with a colon names a fiber type; the section
/// ends at the next top-level line.
pub open spec fn names_run(lines: Seq<Seq<char>>) -> NameScan
    decreases lines.len(),
{
    if lines.len() == 0 {
        NameScan { in_section: false, done: false, names: Seq::empty() }
    } else {
        let st = names_run(lines.drop_last());
        let line = lines.last();
        let t = trim_start_ws(line);
        let ind = indent_of(line);
        if st.done {
            st
        } else if is_section_header(t) {
            NameScan { in_section: true, ..st }
        } else if st.in_section {
            if is_content(t) && ind == 0 {
                NameScan { done: true, ..st }
            } else if ind == 2 && t.len() > 0 && t.last() == ':' && t[0] != '#' {
                NameScan { names: st.names.push(trim_colons(t)), ..st }
            } else {
                st
            }
        } else {
            st
        }
    }
}

/// The names of the fiber types in the fiber types section of a text.
pub open spec fn section_fiber_names(yaml: Seq<char>) -> Seq<Seq<char>> {
    names_run(str_lines(yaml)).names
}

/// Printable ASCII other than quotes and the backslash: text that debug
/// formatting shows as it is.
pub open spec fn plain_text(s: Seq<char>) -> bool {
    forall|i: int| 0 <= i < s.len() ==> ' ' <= #[trigger] s[i] && s[i] <= '~' && s[i] != '"' && s[i] != '\\' && s[i] != '\''
}

/// A list of texts as debug formatting shows it when each is plain.
pub open spec fn debug_list_text(v: Seq<Seq<char>>) -> Seq<char> {
    "["@ + join_with(v.map_values(|x: Seq<char>| "\""@ + x + "\""@), ", "@) + "]"@
}

/// Debug formatting of a list of strings.
///
/// Trusted: `Vec<String>`'s `Debug`; the list in brackets, the strings
/// quoted and separated by a comma and a space. Only lists of plain
/// strings are described: for others the escapes are not stated.
#[verifier::external_body]
fn debug_list(v: &Vec<String>) -> (s: String)
    ensures
        (forall|i: int| 0 <= i < v@.len() ==> plain_text(#[trigger] v@[i]@)) ==> s@ == debug_list_text(string_views(v@)),
{
    format!("{:?}", v)
}

fn collect_section_names(lines: &Vec<Vec<char>>) -> (names: Vec<String>)
    ensures
        string_views(names@) == names_run(views(lines@)).names,
{
    let ghost ls = views(lines@);
    let mut names: Vec<String> = Vec::new();
    let mut in_section = false;
    let mut done = false;
    let mut i: usize = 0;
    assert(string_views(names@) =~= Seq::<Seq<char>>::empty());
    while i < lines.len()
        invariant
            i <= lines@.len(),
            ls == views(lines@),
            ({
                let st = names_run(ls.take(i as int));
                &&& string_views(names@) == st.names
                &&& in_section == st.in_section
                &&& done == st.done
            }),
        decreases lines@.len() - i,
    {
        assert(ls.take(i as int + 1).drop_last() =~= ls.take(i as int));
        assert(ls.take(i as int + 1).last() == lines@[i as int]@);
        if !done {
            let (t, ind) = line_shape(&lines[i]);
            if section_header(&t) {
                in_section = true;
            } else if in_section {
                if content(&t) && ind == 0 {
                    done = true;
                } else if ind == 2 && t.len() > 0 && t[t.len() - 1] == ':' && t[0] != '#' {
                    let mut e = t.len();
                    assert(t@.take(e as int) =~= t@);
                    while e > 0 && t[e - 1] == ':'
                        invariant
                            e <= t@.len(),
                            trim_colons(t@) == trim_colons(t@.take(e as int)),
                        decreases e,
                    {
                        assert(t@.take(e as int).drop_last() =~= t@.take(e as int - 1));
                        e -= 1;
                    }
                    let mut n: Vec<char> = Vec::new();
                    let mut k: usize = 0;
                    while k < e
                        invariant
                            k <= e <= t@.len(),
                            n@ == t@.take(k as int),
                        decreases e - k,
                    {
                        n.push(t[k]);
                        assert(n@ =~= t@.take(k as int + 1));
                        k += 1;
                    }
                    let ns = string_from_chars(n.as_slice());
                    let ghost prev = names@;
                    names.push(ns);
                    assert(string_views(names@) =~= string_views(prev).push(trim_colons(t@)));
                }
            }
        }
        i += 1;
    }
    assert(ls.take(lines@.len() as int) =~= ls);
    names
}

/// The message when the fiber type to replace is not in the text.
pub open spec fn update_not_found_text(name: Seq<char>, found: Seq<char>) -> Seq<char> {
    "Fiber type '"@ + name + "' not found in config YAML. Found fiber types: "@ + found
        + ". Check that the fiber type exists and is properly formatted."@
}

/// The configuration text with the fiber type `name` (its line and the
/// lines under it) replaced by the lines of `new_fiber_yaml`, each indented
/// like the replaced line; comments and layout of everything else kept.
/// `None` when no such fiber type is in the fiber types section.
pub open spec fn spec_update_fiber_type(yaml: Seq<char>, name: Seq<char>, new_fiber_yaml: Seq<char>) -> Option<Seq<char>> {
    let st = update_run(str_lines(yaml), name, str_lines(new_fiber_yaml));
    if st.found { Some(join_with(st.out, seq!['\n'])) } else { None }
}

/// Replaces a fiber type in the configuration text by new text (which
/// starts with the fiber type's name line), keeping comments and the
/// layout of everything else. When the fiber type is not found, the error
/// lists the fiber types that are.
pub fn update_fiber_type_in_yaml(yaml: &str, name: &str, new_fiber_yaml: &str) -> (r: Result<String, ApiError>)
    ensures
        match r {
            Ok(s) => spec_update_fiber_type(yaml@, name@, new_fiber_yaml@) == Some(s@),
            Err(e) => spec_update_fiber_type(yaml@, name@, new_fiber_yaml@) is None
                && (e matches ApiError::NotFound(m) && ((forall|i: int| 0 <= i < section_fiber_names(yaml@).len()
                    ==> plain_text(#[trigger] section_fiber_names(yaml@)[i]))
                    ==> m@ == update_not_found_text(name@, debug_list_text(section_fiber_names(yaml@))))),
        },
{
    let lines = lines_of(chars_of(yaml).as_slice());
    let new_lines = lines_of(chars_of(new_fiber_yaml).as_slice());
    let ghost ls = views(lines@);
    let ghost nl = views(new_lines@);
    let mut out: Vec<Vec<char>> = Vec::new();
    let mut in_section = false;
    let mut skipping: Option<u128> = None;
    let mut child: Option<u128> = None;
    let mut found = false;
    let mut i: usize = 0;
    assert(ls.take(0) =~= Seq::<Seq<char>>::empty());
    assert(views(out@) =~= Seq::<Seq<char>>::empty());
    while i < lines.len()
        invariant
            i <= lines@.len(),
            ls == views(lines@),
            ls == str_lines(yaml@),
            nl == views(new_lines@),
            nl == str_lines(new_fiber_yaml@),
            ({
                let st = update_run(ls.take(i as int), name@, nl);
                &&& views(out@) == st.out
                &&& in_section == st.in_section
                &&& found == st.found
                &&& match child {
                    Some(c) => st.child == Some(c as nat),
                    None => st.child is None,
                }
                &&& match skipping {
                    Some(f) => st.skipping == Some(f as nat),
                    None => st.skipping is None,
                }
            }),
        decreases lines@.len() - i,
    {
        assert(ls.take(i as int + 1).drop_last() =~= ls.take(i as int));
        assert(ls.take(i as int + 1).last() == lines@[i as int]@);
        let line = &lines[i];
        let (t, ind) = line_shape(line);
        let is_skipped = match skipping {
            Some(f) => !(content(&t) && ind <= f),
            None => false,
        };
        if !is_skipped {
            skipping = None;
            if section_header(&t) {
                push_line(&mut out, line);
                in_section = true;
                child = None;
            } else if in_section && !(content(&t) && ind == 0) {
                if child.is_none() && content(&t) {
                    child = Some(ind);
                }
                if content(&t) && child == Some(ind) && entry_of(&t, name) {
                    push_indented(&mut out, &new_lines, ind);
                    skipping = Some(ind);
                    found = true;
                } else {
                    push_line(&mut out, line);
                }
            } else {
                push_line(&mut out, line);
                in_section = false;
            }
        }
        i += 1;
    }
    assert(ls.take(lines@.len() as int) =~= ls);
    if found {
        let s = joined_lines(&out);
        proof {
            let st = update_run(ls, name@, nl);
            assert(st.found && st.out == views(out@));
            assert(spec_update_fiber_type(yaml@, name@, new_fiber_yaml@) == Some(join_with(st.out, seq!['\n'])));
        }
        Ok(s)
    } else {
        Err(update_not_found(&lines, name))
    }
}

fn update_not_found(lines: &Vec<Vec<char>>, name: &str) -> (e: ApiError)
    ensures
        e matches ApiError::NotFound(m) && ((forall|i: int| 0 <= i < names_run(views(lines@)).names.len()
            ==> plain_text(#[trigger] names_run(views(lines@)).names[i]))
            ==> m@ == update_not_found_text(name@, debug_list_text(names_run(views(lines@)).names))),
{
    let names = collect_section_names(lines);
    let listed = debug_list(&names);
    let mut m: Vec<char> = Vec::new();
    append_str(&mut m, "Fiber type '");
    append_str(&mut m, name);
    append_str(&mut m, "' not found in config YAML. Found fiber types: ");
    append_str(&mut m, listed.as_str());
    append_str(&mut m, ". Check that the fiber type exists and is properly formatted.");
    assert(m@ =~= update_not_found_text(name@, listed@));
    proof {
        assert forall|i: int| 0 <= i < names@.len() && (forall|k: int| 0 <= k < names_run(views(lines@)).names.len()
            ==> plain_text(#[trigger] names_run(views(lines@)).names[k])) implies plain_text(#[trigger] names@[i]@) by {
            assert(string_views(names@)[i] == names@[i]@);
        }
    }
    ApiError::NotFound(string_from_chars(m.as_slice()))
}


/// Where adding a fiber type stands: outside the fiber types section, on
/// the line after its header (whose indent the new entry takes), or inside
/// it with the indent of its entries.
pub enum AddMode {
    Top,
    AwaitIndent,
    InSection(nat),
}

pub struct AddState {
    pub out: Seq<Seq<char>>,
    pub mode: AddMode,
    pub found: bool,
}

pub open spec fn add_top(st: AddState, line: Seq<char>) -> AddState {
    if is_section_header(trim_start_ws(line)) {
        AddState { out: st.out.push(line), mode: AddMode::AwaitIndent, found: true }
    } else {
        AddState { out: st.out.push(line), mode: AddMode::Top, found: st.found }
    }
}

/// A line inside the section: the first top-level line ends it, and the new
/// entry and a blank line go in before that line.
pub open spec fn add_in_section(st: AddState, ind: nat, line: Seq<char>, new_lines: Seq<Seq<char>>) -> AddState {
    let t = trim_start_ws(line);
    if is_content(t) && indent_of(line) == 0 {
        add_top(AddState { out: st.out + indent_all(new_lines, ind) + seq![Seq::<char>::empty()], mode: AddMode::Top, found: st.found }, line)
    } else {
        AddState { out: st.out.push(line), mode: AddMode::InSection(ind), found: st.found }
    }
}

pub open spec fn add_run(lines: Seq<Seq<char>>, new_lines: Seq<Seq<char>>) -> AddState
    decreases lines.len(),
{
    if lines.len() == 0 {
        AddState { out: Seq::empty(), mode: AddMode::Top, found: false }
    } else {
        let st = add_run(lines.drop_last(), new_lines);
        let line = lines.last();
        match st.mode {
            AddMode::Top => add_top(st, line),
            AddMode::AwaitIndent => {
                let t = trim_start_ws(line);
                let ind = if is_content(t) { indent_of(line) } else { 2 };
                add_in_section(st, ind, line, new_lines)
            },
            AddMode::InSection(ind) => add_in_section(st, ind, line, new_lines),
        }
    }
}

/// The lines once the text ends: an entry not yet placed goes at the end,
/// after a blank line.
pub open spec fn add_finish(st: AddState, new_lines: Seq<Seq<char>>) -> Seq<Seq<char>> {
    match st.mode {
        AddMode::Top => st.out,
        AddMode::AwaitIndent => st.out + seq![Seq::<char>::empty()] + indent_all(new_lines, 2),
        AddMode::InSection(ind) => st.out + seq![Seq::<char>::empty()] + indent_all(new_lines, ind),
    }
}

/// The configuration text with the lines of `fiber_yaml` added at the end
/// of the fiber types section, indented like its first entry (two spaces
/// when there is none), followed by a blank line; `None` when there is no
/// fiber types section.
pub open spec fn spec_add_fiber_type(yaml: Seq<char>, fiber_yaml: Seq<char>) -> Option<Seq<char>> {
    let st = add_run(str_lines(yaml), str_lines(fiber_yaml));
    if st.found { Some(join_with(add_finish(st, str_lines(fiber_yaml)), seq!['\n'])) } else { None }
}

fn push_empty_line(out: &mut Vec<Vec<char>>)
    ensures
        views(final(out)@) == views(old(out)@).push(Seq::<char>::empty()),
{
    let ghost prev = out@;
    out.push(Vec::new());
    assert(views(out@) =~= views(prev).push(Seq::<char>::empty()));
}

/// Adds a fiber type (text that starts with its name line) at the end of
/// the fiber types section, keeping comments and layout.
pub fn add_fiber_type_to_yaml(yaml: &str, name: &str, fiber_yaml: &str) -> (r: Result<String, ApiError>)
    ensures
        match r {
            Ok(s) => spec_add_fiber_type(yaml@, fiber_yaml@) == Some(s@),
            Err(e) => spec_add_fiber_type(yaml@, fiber_yaml@) is None
                && (e matches ApiError::Internal(m) && m@ == "fiber_types section not found in config"@),
        },
{
    let lines = lines_of(chars_of(yaml).as_slice());
    let new_lines = lines_of(chars_of(fiber_yaml).as_slice());
    let ghost ls = views(lines@);
    let ghost nl = views(new_lines@);
    let mut out: Vec<Vec<char>> = Vec::new();
    // 0: outside the section; 1: on the line after its header; 2: inside it
    let mut mode: u8 = 0;
    let mut ind: u128 = 0;
    let mut found = false;
    let mut i: usize = 0;
    assert(ls.take(0) =~= Seq::<Seq<char>>::empty());
    assert(views(out@) =~= Seq::<Seq<char>>::empty());
    while i < lines.len()
        invariant
            i <= lines@.len(),
            ls == views(lines@),
            ls == str_lines(yaml@),
            nl == views(new_lines@),
            nl == str_lines(fiber_yaml@),
            mode <= 2,
            ({
                let st = add_run(ls.take(i as int), nl);
                &&& views(out@) == st.out
                &&& found == st.found
                &&& match st.mode {
                    AddMode::Top => mode == 0,
                    AddMode::AwaitIndent => mode == 1,
                    AddMode::InSection(n) => mode == 2 && ind == n,
                }
            }),
        decreases lines@.len() - i,
    {
        assert(ls.take(i as int + 1).drop_last() =~= ls.take(i as int));
        assert(ls.take(i as int + 1).last() == lines@[i as int]@);
        let line = &lines[i];
        let (t, w) = line_shape(line);
        if mode == 1 {
            ind = if content(&t) { w } else { 2 };
            mode = 2;
        }
        if mode == 2 && content(&t) && w == 0 {
            push_indented(&mut out, &new_lines, ind);
            push_empty_line(&mut out);
            mode = 0;
        }
        if mode == 0 {
            push_line(&mut out, line);
            if section_header(&t) {
                mode = 1;
                found = true;
            }
        } else {
            push_line(&mut out, line);
        }
        i += 1;
    }
    assert(ls.take(lines@.len() as int) =~= ls);
    if !found {
        return Err(ApiError::Internal("fiber_types section not found in config".to_string()));
    }
    let ghost st = add_run(ls, nl);
    if mode == 1 {
        push_empty_line(&mut out);
        push_indented(&mut out, &new_lines, 2);
    } else if mode == 2 {
        push_empty_line(&mut out);
        push_indented(&mut out, &new_lines, ind);
    }
    assert(views(out@) == add_finish(st, nl));
    let s = joined_lines(&out);
    assert(spec_add_fiber_type(yaml@, fiber_yaml@) == Some(join_with(add_finish(st, nl), seq!['\n'])));
    Ok(s)
}


/// The first line from `p` on that is not blank, or the number of lines.
pub open spec fn next_nonblank(ls: Seq<Seq<char>>, p: int) -> int
    decreases ls.len() - p,
{
    if p >= ls.len() {
        ls.len() as int
    } else if trim_start_ws(ls[p]).len() > 0 {
        p
    } else {
        next_nonblank(ls, p + 1)
    }
}

/// The lines under an entry indented by `ind`, from line `j` on, with the
/// entry's indent taken off: they end at the first line with content at
/// the entry's indent or less, and blank lines before such a line are left
/// out.
pub open spec fn entry_body(ls: Seq<Seq<char>>, j: int, ind: nat) -> Seq<Seq<char>>
    decreases ls.len() - j,
{
    if j < 0 || j >= ls.len() {
        Seq::empty()
    } else {
        let l = ls[j];
        let t = trim_start_ws(l);
        let ni = indent_of(l);
        if t.len() == 0 {
            let p = next_nonblank(ls, j + 1);
            if p < ls.len() && indent_of(ls[p]) <= ind {
                Seq::empty()
            } else {
                seq![Seq::<char>::empty()] + entry_body(ls, j + 1, ind)
            }
        } else if is_content(t) && ni <= ind {
            Seq::empty()
        } else if ni > ind {
            seq![spaces((ni - ind) as nat) + t] + entry_body(ls, j + 1, ind)
        } else {
            seq![t] + entry_body(ls, j + 1, ind)
        }
    }
}

/// The lines of the entry `name` of the fiber types section, looking from
/// line `i` on: its name line without indent, then its body.
pub open spec fn find_entry(ls: Seq<Seq<char>>, name: Seq<char>, i: int, in_section: bool) -> Option<Seq<Seq<char>>>
    decreases ls.len() - i,
{
    if i < 0 || i >= ls.len() {
        None
    } else {
        let t = trim_start_ws(ls[i]);
        let ind = indent_of(ls[i]);
        if is_section_header(t) {
            find_entry(ls, name, i + 1, true)
        } else if in_section {
            if is_content(t) && ind == 0 {
                None
            } else if is_entry_of(t, name) {
                Some(seq![t] + entry_body(ls, i + 1, ind))
            } else {
                find_entry(ls, name, i + 1, true)
            }
        } else {
            find_entry(ls, name, i + 1, false)
        }
    }
}

/// The text of the fiber type `name`: its name line and the lines under it,
/// indented relative to the name line; `None` when the fiber types section
/// has no such entry.
pub open spec fn spec_extract_fiber_type(yaml: Seq<char>, name: Seq<char>) -> Option<Seq<char>> {
    match find_entry(str_lines(yaml), name, 0, false) {
        Some(ls) => Some(join_with(ls, seq!['\n'])),
        None => None,
    }
}

fn next_nonblank_line(lines: &Vec<Vec<char>>, p: usize) -> (r: usize)
    requires
        p <= lines@.len(),
    ensures
        r as int == next_nonblank(views(lines@), p as int),
        p <= r <= lines@.len(),
{
    let ghost ls = views(lines@);
    let mut k = p;
    while k < lines.len()
        invariant
            p <= k <= lines@.len(),
            ls == views(lines@),
            next_nonblank(ls, p as int) == next_nonblank(ls, k as int),
        decreases lines@.len() - k,
    {
        let (t, _w) = line_shape(&lines[k]);
        assert(ls[k as int] == lines@[k as int]@);
        if t.len() > 0 {
            return k;
        }
        k += 1;
    }
    k
}

fn entry_body_lines(lines: &Vec<Vec<char>>, start: usize, ind: u128) -> (r: Vec<Vec<char>>)
    requires
        start <= lines@.len(),
    ensures
        views(r@) == entry_body(views(lines@), start as int, ind as nat),
{
    let ghost ls = views(lines@);
    let mut out: Vec<Vec<char>> = Vec::new();
    let mut j = start;
    assert(views(out@) + entry_body(ls, j as int, ind as nat) =~= entry_body(ls, start as int, ind as nat));
    while j < lines.len()
        invariant
            start <= j <= lines@.len(),
            ls == views(lines@),
            views(out@) + entry_body(ls, j as int, ind as nat) == entry_body(ls, start as int, ind as nat),
        decreases lines@.len() - j,
    {
        let ghost before = views(out@);
        let ghost rest = entry_body(ls, j as int + 1, ind as nat);
        assert(ls[j as int] == lines@[j as int]@);
        let (t, ni) = line_shape(&lines[j]);
        if t.len() == 0 {
            let p = next_nonblank_line(lines, j + 1);
            if p < lines.len() {
                let (_pt, pi) = line_shape(&lines[p]);
                assert(ls[p as int] == lines@[p as int]@);
                if pi <= ind {
                    assert(entry_body(ls, j as int, ind as nat) =~= Seq::<Seq<char>>::empty());
                    assert(views(out@) =~= entry_body(ls, start as int, ind as nat));
                    return out;
                }
            }
            push_empty_line(&mut out);
            assert(views(out@) + rest =~= before + entry_body(ls, j as int, ind as nat));
        } else if t[0] != '#' && ni <= ind {
            assert(entry_body(ls, j as int, ind as nat) =~= Seq::<Seq<char>>::empty());
            assert(views(out@) =~= entry_body(ls, start as int, ind as nat));
            return out;
        } else if ni > ind {
            let l = indented(ni - ind, &t);
            let ghost prev = out@;
            out.push(l);
            assert(views(out@) =~= views(prev).push(spaces((ni - ind) as nat) + t@));
            assert(views(out@) + rest =~= before + entry_body(ls, j as int, ind as nat));
        } else {
            push_line(&mut out, &t);
            assert(views(out@) + rest =~= before + entry_body(ls, j as int, ind as nat));
        }
        j += 1;
    }
    assert(entry_body(ls, j as int, ind as nat) =~= Seq::<Seq<char>>::empty());
    assert(views(out@) =~= entry_body(ls, start as int, ind as nat));
    out
}

/// The text of a fiber type in the configuration: its name line without
/// indent and the lines under it, indented relative to the name line.
pub fn extract_fiber_type_yaml_with_name(yaml: &str, name: &str) -> (r: Result<String, ApiError>)
    ensures
        match r {
            Ok(s) => spec_extract_fiber_type(yaml@, name@) == Some(s@),
            Err(e) => spec_extract_fiber_type(yaml@, name@) is None
                && (e matches ApiError::NotFound(m) && m@ == "Fiber type '"@ + name@ + "' not found in config"@),
        },
{
    let lines = lines_of(chars_of(yaml).as_slice());
    let ghost ls = views(lines@);
    let mut in_section = false;
    let mut i: usize = 0;
    while i < lines.len()
        invariant
            i <= lines@.len(),
            ls == views(lines@),
            ls == str_lines(yaml@),
            find_entry(ls, name@, i as int, in_section) == find_entry(ls, name@, 0, false),
        ensures
            find_entry(ls, name@, 0, false) is None,
        decreases lines@.len() - i,
    {
        assert(ls[i as int] == lines@[i as int]@);
        let (t, ind) = line_shape(&lines[i]);
        if section_header(&t) {
            in_section = true;
        } else if in_section {
            if content(&t) && ind == 0 {
                assert(find_entry(ls, name@, i as int, in_section) is None);
                break;
            }
            if entry_of(&t, name) {
                let body = entry_body_lines(&lines, i + 1, ind);
                let mut all: Vec<Vec<char>> = Vec::new();
                push_line(&mut all, &t);
                let mut k: usize = 0;
                while k < body.len()
                    invariant
                        k <= body@.len(),
                        views(all@) == seq![t@] + views(body@).take(k as int),
                    decreases body@.len() - k,
                {
                    push_line(&mut all, &body[k]);
                    assert(views(body@).take(k as int + 1) =~= views(body@).take(k as int).push(body@[k as int]@));
                    k += 1;
                }
                assert(views(body@).take(body@.len() as int) =~= views(body@));
                assert(find_entry(ls, name@, i as int, in_section) == Some(seq![t@] + entry_body(ls, i as int + 1, ind as nat)));
                assert(views(all@) =~= seq![t@] + views(body@));
                let s = joined_lines(&all);
                assert(spec_extract_fiber_type(yaml@, name@) == Some(join_with(views(all@), seq!['\n'])));
                return Ok(s);
            }
        }
        i += 1;
    }
    Err(not_found_in_config(name))
}

} // verus!

use vstd::prelude::*;
use crate::text::{chars_of, decimal_chars, spec_decimal, string_from_chars};

verus! {

/// What a line of a line diff does.
#[derive(Debug, Clone, Copy, PartialEq, Eq, Structural)]
pub enum ChangeKind {
    /// The line is only in the old text.
    Delete,
    /// The line is only in the new text.
    Insert,
    /// The line is in both texts.
    Equal,
}

/// One line of a line diff, with its line ending when it has one.
#[derive(Debug)]
pub struct LineChange {
    pub kind: ChangeKind,
    pub value: String,
}

/// The changes of a line diff as plain values.
pub open spec fn change_views(v: Seq<LineChange>) -> Seq<(ChangeKind, Seq<char>)> {
    v.map_values(|c: LineChange| (c.kind, c.value@))
}

/// Every change of the Myers line diff of two texts, in order, as the
/// `similar` crate computes it (`TextDiff::from_lines` then
/// `iter_all_changes`).
pub uninterp spec fn line_diff(from: Seq<char>, to: Seq<char>) -> Seq<(ChangeKind, Seq<char>)>;

/// The line diff of two texts.
///
/// Trusted: `similar::TextDiff::from_lines` and `iter_all_changes`; each
/// change is taken with its tag and its text.
#[verifier::external_body]
fn line_changes(from: &str, to: &str) -> (r: Vec<LineChange>)
    ensures
        change_views(r@) == line_diff(from@, to@),
{
    let diff = similar::TextDiff::from_lines(from, to);
    let mut out: Vec<LineChange> = Vec::new();
    for c in diff.iter_all_changes() {
        let kind = match c.tag() {
            similar::ChangeTag::Delete => ChangeKind::Delete,
            similar::ChangeTag::Insert => ChangeKind::Insert,
            similar::ChangeTag::Equal => ChangeKind::Equal,
        };
        out.push(LineChange { kind, value: c.value().to_string() });
    }
    out
}

/// How a change's line is displayed: as it is when it ends in a line break
/// (`\n` or `\r`), else with `\n` added.
pub open spec fn shown_line(v: Seq<char>) -> Seq<char> {
    if v.len() > 0 && (v.last() == '\n' || v.last() == '\r') {
        v
    } else {
        v.push('\n')
    }
}

/// The sign that marks a change.
pub open spec fn change_sign(k: ChangeKind) -> char {
    match k {
        ChangeKind::Delete => '-',
        ChangeKind::Insert => '+',
        ChangeKind::Equal => ' ',
    }
}

/// The simple diff text: each change as its sign, a space and its line.
pub open spec fn plain_diff_text(changes: Seq<(ChangeKind, Seq<char>)>) -> Seq<char>
    decreases changes.len(),
{
    if changes.len() == 0 {
        Seq::empty()
    } else {
        let c = changes.last();
        plain_diff_text(changes.drop_last()) + seq![change_sign(c.0), ' '] + shown_line(c.1)
    }
}

/// The body of a hunk: each change as its sign and its line.
pub open spec fn hunk_text(changes: Seq<(ChangeKind, Seq<char>)>) -> Seq<char>
    decreases changes.len(),
{
    if changes.len() == 0 {
        Seq::empty()
    } else {
        let c = changes.last();
        hunk_text(changes.drop_last()) + seq![change_sign(c.0)] + shown_line(c.1)
    }
}

/// How many changes of the kinds other than `skip` there are: the length
/// of one side of the diff.
pub open spec fn side_len(changes: Seq<(ChangeKind, Seq<char>)>, skip: ChangeKind) -> nat
    decreases changes.len(),
{
    if changes.len() == 0 {
        0
    } else {
        side_len(changes.drop_last(), skip) + if changes.last().0 == skip { 0nat } else { 1nat }
    }
}

/// The diff text with file headers and one hunk that covers both texts.
pub open spec fn context_diff_text(
    changes: Seq<(ChangeKind, Seq<char>)>,
    from_label: Seq<char>,
    to_label: Seq<char>,
) -> Seq<char> {
    let header = "--- "@ + from_label + seq!['\n'] + "+++ "@ + to_label + seq!['\n'];
    if changes.len() == 0 {
        header
    } else {
        header + "@@ -1,"@ + spec_decimal(side_len(changes, ChangeKind::Insert)) + " +1,"@
            + spec_decimal(side_len(changes, ChangeKind::Delete)) + " @@\n"@ + hunk_text(changes)
    }
}

fn push_all(out: &mut Vec<char>, s: &[char])
    ensures
        final(out)@ == old(out)@ + s@,
{
    let ghost start = out@;
    let mut i: usize = 0;
    while i < s.len()
        invariant
            i <= s.len(),
            out@ == start + s@.take(i as int),
        decreases s.len() - i,
    {
        out.push(s[i]);
        assert(out@ =~= start + s@.take(i as int + 1));
        i += 1;
    }
    assert(s@.take(s@.len() as int) =~= s@);
}

fn push_shown_line(out: &mut Vec<char>, value: &String)
    ensures
        final(out)@ == old(out)@ + shown_line(value@),
{
    let v = chars_of(value.as_str());
    push_all(out, v.as_slice());
    let n = v.len();
    if n == 0 || (v[n - 1] != '\n' && v[n - 1] != '\r') {
        out.push('\n');
    }
}

fn sign_of(k: ChangeKind) -> (c: char)
    ensures
        c == change_sign(k),
{
    match k {
        ChangeKind::Delete => '-',
        ChangeKind::Insert => '+',
        ChangeKind::Equal => ' ',
    }
}

/// Renders line changes as the simple diff text.
pub fn render_diff(changes: &Vec<LineChange>) -> (s: String)
    ensures
        s@ == plain_diff_text(change_views(changes@)),
{
    let ghost cv = change_views(changes@);
    let mut out: Vec<char> = Vec::new();
    let mut i: usize = 0;
    while i < changes.len()
        invariant
            i <= changes@.len(),
            cv == change_views(changes@),
            out@ == plain_diff_text(cv.take(i as int)),
        decreases changes@.len() - i,
    {
        assert(cv.take(i as int + 1).drop_last() =~= cv.take(i as int));
        out.push(sign_of(changes[i].kind));
        out.push(' ');
        push_shown_line(&mut out, &changes[i].value);
        i += 1;
    }
    assert(cv.take(changes@.len() as int) =~= cv);
    string_from_chars(out.as_slice())
}

/// Creates a simple diff between two texts: every line of the line diff,
/// marked `- ` when only the old text has it, `+ ` when only the new text
/// has it, and with two spaces when both have it.
pub fn create_diff(from: &str, to: &str) -> (s: String)
    ensures
        s@ == plain_diff_text(line_diff(from@, to@)),
{
    let changes = line_changes(from, to);
    render_diff(&changes)
}

/// Renders line changes as a diff with `---`/`+++` headers and one hunk,
/// headed by the line counts of both sides, that covers all the changes.
pub fn render_context_diff(changes: &Vec<LineChange>, from_label: &str, to_label: &str) -> (s: String)
    ensures
        s@ == context_diff_text(change_views(changes@), from_label@, to_label@),
{
    let ghost cv = change_views(changes@);
    let mut out: Vec<char> = Vec::new();
    push_all(&mut out, chars_of("--- ").as_slice());
    push_all(&mut out, chars_of(from_label).as_slice());
    out.push('\n');
    push_all(&mut out, chars_of("+++ ").as_slice());
    push_all(&mut out, chars_of(to_label).as_slice());
    out.push('\n');
    let ghost header = out@;
    assert(header =~= "--- "@ + from_label@ + seq!['\n'] + "+++ "@ + to_label@ + seq!['\n']);
    if changes.len() == 0 {
        return string_from_chars(out.as_slice());
    }
    let mut body: Vec<char> = Vec::new();
    let mut old_count: u64 = 0;
    let mut new_count: u64 = 0;
    let mut i: usize = 0;
    while i < changes.len()
        invariant
            i <= changes@.len(),
            cv == change_views(changes@),
            body@ == hunk_text(cv.take(i as int)),
            old_count == side_len(cv.take(i as int), ChangeKind::Insert),
            new_count == side_len(cv.take(i as int), ChangeKind::Delete),
            old_count <= i,
            new_count <= i,
            changes@.len() <= usize::MAX,
        decreases changes@.len() - i,
    {
        assert(cv.take(i as int + 1).drop_last() =~= cv.take(i as int));
        let kind = changes[i].kind;
        body.push(sign_of(kind));
        push_shown_line(&mut body, &changes[i].value);
        match kind {
            ChangeKind::Delete => {
                old_count += 1;
            },
            ChangeKind::Insert => {
                new_count += 1;
            },
            ChangeKind::Equal => {
                old_count += 1;
                new_count += 1;
            },
        }
        i += 1;
    }
    assert(cv.take(changes@.len() as int) =~= cv);
    push_all(&mut out, chars_of("@@ -1,").as_slice());
    push_all(&mut out, decimal_chars(old_count).as_slice());
    push_all(&mut out, chars_of(" +1,").as_slice());
    push_all(&mut out, decimal_chars(new_count).as_slice());
    push_all(&mut out, chars_of(" @@\n").as_slice());
    push_all(&mut out, body.as_slice());
    string_from_chars(out.as_slice())
}

/// Creates a diff between two texts with `--- from_label` and
/// `+++ to_label` headers and a hunk `@@ -1,<old lines> +1,<new lines> @@`
/// that holds every line of the line diff marked `-`, `+` or ` `; with no
/// lines at all only the headers remain.
pub fn create_diff_with_context(from: &str, to: &str, from_label: &str, to_label: &str) -> (s: String)
    ensures
        s@ == context_diff_text(line_diff(from@, to@), from_label@, to_label@),
{
    let changes = line_changes(from, to);
    render_context_diff(&changes, from_label, to_label)
}

} // verus!

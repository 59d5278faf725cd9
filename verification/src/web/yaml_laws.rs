use vstd::prelude::*;
use crate::text::{split_on, join_with, str_lines, strip_cr, occurs_at};
use crate::config::types::trim_start_ws;
use crate::source::reader::spec_is_whitespace;
use crate::web::api::{
    entry_body, find_entry, indent_all, indent_of, is_content, is_entry_of, is_section_header, opens_entry,
    skipped, spaces, spec_extract_fiber_type, spec_update_fiber_type, update_run, update_visit,
    AddMode, add_run, add_finish, spec_add_fiber_type, next_nonblank,
};

verus! {

/// The text ends with a carriage return.
pub open spec fn ends_with_cr(l: Seq<char>) -> bool {
    l.len() > 0 && l.last() == '\r'
}

/// A text with no newline in it, not ending with a carriage return.
pub open spec fn one_line(l: Seq<char>) -> bool {
    !l.contains('\n') && !ends_with_cr(l)
}

/// No line of the text ends with a carriage return (a line that a newline
/// ends loses one carriage return before it; this asks for no second one).
pub open spec fn no_cr_line_end(s: Seq<char>) -> bool {
    forall|q: int| 0 <= q < str_lines(s).len() ==> !ends_with_cr(#[trigger] str_lines(s)[q])
}

proof fn lemma_split_single(y: Seq<char>)
    requires
        !y.contains('\n'),
    ensures
        split_on(y, '\n') == seq![y],
    decreases y.len(),
{
    if y.len() == 0 {
        assert(y =~= Seq::<char>::empty());
    } else {
        let y0 = y.drop_last();
        assert(!y0.contains('\n')) by {
            if y0.contains('\n') {
                let w = choose|w: int| 0 <= w < y0.len() && y0[w] == '\n';
                assert(y[w] == '\n');
            }
        }
        lemma_split_single(y0);
        assert(y.last() != '\n') by {
            assert(y[y.len() - 1] == y.last());
        }
        assert(y0.push(y.last()) =~= y);
        assert(split_on(y, '\n') =~= seq![y]);
    }
}

proof fn lemma_split_after_newline(x: Seq<char>, y: Seq<char>)
    requires
        !y.contains('\n'),
    ensures
        split_on(x + seq!['\n'] + y, '\n') == split_on(x, '\n').push(y),
    decreases y.len(),
{
    if y.len() == 0 {
        let s = x + seq!['\n'] + y;
        assert(s =~= x.push('\n'));
        assert(s.drop_last() =~= x);
        assert(s.last() == '\n');
        assert(y =~= Seq::<char>::empty());
        assert(split_on(s, '\n') == split_on(x, '\n').push(Seq::<char>::empty()));
    } else {
        let y0 = y.drop_last();
        assert(!y0.contains('\n')) by {
            if y0.contains('\n') {
                let w = choose|w: int| 0 <= w < y0.len() && y0[w] == '\n';
                assert(y[w] == '\n');
            }
        }
        lemma_split_after_newline(x, y0);
        let s = x + seq!['\n'] + y;
        assert(s.drop_last() =~= x + seq!['\n'] + y0);
        assert(s.last() == y.last());
        assert(y.last() != '\n') by {
            assert(y[y.len() - 1] == y.last());
        }
        assert(y0.push(y.last()) =~= y);
        assert(split_on(s, '\n') =~= split_on(x, '\n').push(y));
    }
}

/// Splitting lines joined by newlines gives them back.
proof fn lemma_split_join(ls: Seq<Seq<char>>)
    requires
        ls.len() > 0,
        forall|q: int| 0 <= q < ls.len() ==> !(#[trigger] ls[q]).contains('\n'),
    ensures
        split_on(join_with(ls, seq!['\n']), '\n') == ls,
    decreases ls.len(),
{
    if ls.len() == 1 {
        lemma_split_single(ls[0]);
        assert(seq![ls[0]] =~= ls);
    } else {
        let front = ls.drop_last();
        assert forall|q: int| 0 <= q < front.len() implies !(#[trigger] front[q]).contains('\n') by {
            assert(front[q] == ls[q]);
        }
        lemma_split_join(front);
        assert(!ls.last().contains('\n')) by {
            assert(ls[ls.len() - 1] == ls.last());
        }
        lemma_split_after_newline(join_with(front, seq!['\n']), ls.last());
        assert(front.push(ls.last()) =~= ls);
    }
}

/// Lines without newline or carriage return, joined by newlines, read back
/// as the same lines, but for a last line that is empty.
proof fn lemma_lines_of_joined_any(ls: Seq<Seq<char>>)
    requires
        ls.len() > 0,
        forall|q: int| 0 <= q < ls.len() ==> one_line(#[trigger] ls[q]),
    ensures
        str_lines(join_with(ls, seq!['\n'])) == (if ls.last().len() == 0 { ls.drop_last() } else { ls }),
{
    lemma_split_join(ls);
    assert forall|q: int| 0 <= q < ls.len() implies strip_cr(#[trigger] ls[q]) == ls[q] by {
        assert(one_line(ls[q]));
        if ls[q].len() > 0 {
            assert(ls[q][ls[q].len() - 1] == ls[q].last());
        }
    }
    let kept = if ls.last().len() == 0 { ls.drop_last() } else { ls };
    assert(str_lines(join_with(ls, seq!['\n'])) =~= kept);
}

/// The lines of a text with no line ending in a carriage return are single
/// lines.
proof fn lemma_lines_one_line(s: Seq<char>)
    requires
        no_cr_line_end(s),
    ensures
        forall|q: int| 0 <= q < str_lines(s).len() ==> one_line(#[trigger] str_lines(s)[q]),
{
    lemma_split_pieces(s);
    let parts = split_on(s, '\n');
    let kept = if parts.last().len() == 0 { parts.drop_last() } else { parts };
    assert forall|q: int| 0 <= q < str_lines(s).len() implies one_line(#[trigger] str_lines(s)[q]) by {
        assert(kept[q] == parts[q]);
        assert(!parts[q].contains('\n'));
        let l = kept[q];
        let x = str_lines(s)[q];
        assert(!ends_with_cr(x));
        if x.contains('\n') {
            let w = choose|w: int| 0 <= w < x.len() && x[w] == '\n';
            if l.len() > 0 && l.last() == '\r' && q < parts.len() - 1 {
                assert(x =~= l.drop_last());
                assert(l[w] == '\n');
            } else {
                assert(x == l);
            }
        }
    }
}

proof fn lemma_split_pieces(s: Seq<char>)
    ensures
        forall|q: int| 0 <= q < split_on(s, '\n').len() ==> !(#[trigger] split_on(s, '\n')[q]).contains('\n'),
        split_on(s, '\n').len() > 0,
    decreases s.len(),
{
    if s.len() > 0 {
        let s0 = s.drop_last();
        lemma_split_pieces(s0);
        let r = split_on(s0, '\n');
        if s.last() != '\n' {
            let nl = r.last().push(s.last());
            assert(!r[r.len() - 1].contains('\n'));
            assert(!nl.contains('\n')) by {
                if nl.contains('\n') {
                    let w = choose|w: int| 0 <= w < nl.len() && nl[w] == '\n';
                    if w < r.last().len() {
                        assert(r.last()[w] == nl[w]);
                    }
                }
            }
        }
        assert forall|q: int| 0 <= q < split_on(s, '\n').len() implies !(#[trigger] split_on(s, '\n')[q]).contains('\n') by {
            if q < r.len() - 1 {
                assert(split_on(s, '\n')[q] == r[q]);
            } else if q == r.len() - 1 {
                if s.last() == '\n' {
                    assert(split_on(s, '\n')[q] == r[q]);
                }
            } else {
                assert(split_on(s, '\n')[q] =~= Seq::<char>::empty());
            }
        }
    }
}

/// The edit that replaces the fiber type `name` opens it at line `j`.
pub open spec fn edit_opens_at(ls: Seq<Seq<char>>, name: Seq<char>, nl: Seq<Seq<char>>, j: int) -> bool {
    let st = update_run(ls.take(j), name, nl);
    let t = trim_start_ws(ls[j]);
    let ind = indent_of(ls[j]);
    &&& !skipped(st, ls[j])
    &&& !is_section_header(t)
    &&& st.in_section && !(is_content(t) && ind == 0)
    &&& opens_entry(st, t, ind, name)
}

/// The line at which the search of `find_entry` finds the entry `name`.
pub open spec fn entry_at(ls: Seq<Seq<char>>, name: Seq<char>, i: int, in_section: bool) -> Option<int>
    decreases ls.len() - i,
{
    if i < 0 || i >= ls.len() {
        None
    } else {
        let t = trim_start_ws(ls[i]);
        let ind = indent_of(ls[i]);
        if is_section_header(t) {
            entry_at(ls, name, i + 1, true)
        } else if in_section {
            if is_content(t) && ind == 0 {
                None
            } else if is_entry_of(t, name) {
                Some(i)
            } else {
                entry_at(ls, name, i + 1, true)
            }
        } else {
            entry_at(ls, name, i + 1, false)
        }
    }
}

/// The first line from `j` on with content at the indent `ind` or less, or
/// the number of lines: where the lines under an entry end.
pub open spec fn skip_end(ls: Seq<Seq<char>>, j: int, ind: nat) -> int
    decreases ls.len() - j,
{
    if j < 0 || j >= ls.len() {
        ls.len() as int
    } else if is_content(trim_start_ws(ls[j])) && indent_of(ls[j]) <= ind {
        j
    } else {
        skip_end(ls, j + 1, ind)
    }
}

/// A line under a fiber type's name line: not blank, indented, its indent
/// made of spaces.
pub open spec fn body_line(l: Seq<char>) -> bool {
    &&& trim_start_ws(l).len() > 0
    &&& l.len() > 0 && l[0] == ' '
    &&& l == spaces(indent_of(l)) + trim_start_ws(l)
}

proof fn lemma_entry_at_find(ls: Seq<Seq<char>>, name: Seq<char>, i: int, in_section: bool)
    ensures
        find_entry(ls, name, i, in_section) == match entry_at(ls, name, i, in_section) {
            Some(e) => Some(seq![trim_start_ws(ls[e])] + entry_body(ls, e + 1, indent_of(ls[e]))),
            None => None,
        },
    decreases ls.len() - i,
{
    if 0 <= i < ls.len() {
        lemma_entry_at_find(ls, name, i + 1, true);
        lemma_entry_at_find(ls, name, i + 1, false);
    }
}

proof fn lemma_entry_at_agree(l1: Seq<Seq<char>>, l2: Seq<Seq<char>>, name: Seq<char>, j: int, s: bool, i: int)
    requires
        0 <= j <= i < l1.len(),
        i < l2.len(),
        forall|q: int| j <= q < i ==> l1[q] == l2[q],
        entry_at(l1, name, j, s) == Some(i),
        !is_section_header(trim_start_ws(l2[i])),
        !(is_content(trim_start_ws(l2[i])) && indent_of(l2[i]) == 0),
        is_entry_of(trim_start_ws(l2[i]), name),
    ensures
        entry_at(l2, name, j, s) == Some(i),
    decreases i - j,
{
    if j < i {
        assert(l1[j] == l2[j]);
        let t = trim_start_ws(l1[j]);
        if is_section_header(t) {
            lemma_entry_at_agree(l1, l2, name, j + 1, true, i);
        } else if s {
            lemma_entry_at_agree(l1, l2, name, j + 1, true, i);
        } else {
            lemma_entry_at_agree(l1, l2, name, j + 1, false, i);
        }
    } else {
        if !s {
            // the search reaches the entry only inside the section
            assert(entry_at(l1, name, j, s) == entry_at(l1, name, j + 1, false) || is_section_header(trim_start_ws(l1[j])));
            lemma_entry_at_outside(l1, name, j + 1);
        }
    }
}

proof fn lemma_entry_at_outside(ls: Seq<Seq<char>>, name: Seq<char>, j: int)
    ensures
        entry_at(ls, name, j, false) matches Some(e) ==> e >= j,
        entry_at(ls, name, j, true) matches Some(e) ==> e >= j,
    decreases ls.len() - j,
{
    if 0 <= j < ls.len() {
        lemma_entry_at_outside(ls, name, j + 1);
    }
}

proof fn lemma_skip_end(ls: Seq<Seq<char>>, j: int, ind: nat)
    requires
        0 <= j <= ls.len(),
    ensures
        j <= skip_end(ls, j, ind) <= ls.len(),
        forall|q: int| j <= q < skip_end(ls, j, ind)
            ==> !(is_content(trim_start_ws(#[trigger] ls[q])) && indent_of(ls[q]) <= ind),
        skip_end(ls, j, ind) < ls.len() ==> is_content(trim_start_ws(ls[skip_end(ls, j, ind)]))
            && indent_of(ls[skip_end(ls, j, ind)]) <= ind,
    decreases ls.len() - j,
{
    if j < ls.len() {
        lemma_skip_end(ls, j + 1, ind);
    }
}

proof fn lemma_spaces_front(n: nat, l: Seq<char>)
    ensures
        trim_start_ws(spaces(n) + l) == trim_start_ws(l),
        indent_of(spaces(n) + l) == n + indent_of(l),
    decreases n,
{
    if n > 0 {
        lemma_spaces_front((n - 1) as nat, l);
        let s = spaces(n) + l;
        assert(s[0] == ' ');
        assert(spec_is_whitespace(' '));
        assert(s.drop_first() =~= spaces((n - 1) as nat) + l);
    } else {
        assert(spaces(0) + l =~= l);
    }
}

/// The edit opens the entry at line `i` and at no other line.
pub open spec fn opens_only_at(ls: Seq<Seq<char>>, name: Seq<char>, nl: Seq<Seq<char>>, i: int) -> bool {
    &&& 0 <= i < ls.len()
    &&& forall|j: int| 0 <= j < ls.len() ==> (#[trigger] edit_opens_at(ls, name, nl, j) <==> j == i)
}

proof fn lemma_run_prefix(ls: Seq<Seq<char>>, name: Seq<char>, nl: Seq<Seq<char>>, i: int, j: int)
    requires
        opens_only_at(ls, name, nl, i),
        0 <= j <= ls.len(),
    ensures
        ({
            let ind = indent_of(ls[i]);
            let k = skip_end(ls, i + 1, ind);
            let st = update_run(ls.take(j), name, nl);
            &&& j <= i ==> st.out == ls.take(j) && st.skipping is None
            &&& i < j <= k ==> st.out == ls.take(i) + indent_all(nl, ind) && st.skipping == Some(ind)
            &&& k < j ==> st.out == ls.take(i) + indent_all(nl, ind) + ls.subrange(k, j) && st.skipping is None
        }),
    decreases j,
{
    let ind = indent_of(ls[i]);
    let k = skip_end(ls, i + 1, ind);
    lemma_skip_end(ls, i + 1, ind);
    if j == 0 {
        assert(ls.take(0) =~= Seq::<Seq<char>>::empty());
    } else {
        lemma_run_prefix(ls, name, nl, i, j - 1);
        let st = update_run(ls.take(j - 1), name, nl);
        let line = ls[j - 1];
        assert(ls.take(j).drop_last() =~= ls.take(j - 1));
        assert(ls.take(j).last() == line);
        assert(update_run(ls.take(j), name, nl) == (if skipped(st, line) { st } else { update_visit(st, line, name, nl) }));
        let opens = edit_opens_at(ls, name, nl, j - 1);
        if j - 1 < i {
            assert(!opens);
            assert(ls.take(j - 1).push(line) =~= ls.take(j));
        } else if j - 1 == i {
            assert(opens);
        } else if j - 1 < k {
            assert(!(is_content(trim_start_ws(ls[j - 1])) && indent_of(ls[j - 1]) <= ind));
            assert(skipped(st, line));
        } else if j - 1 == k {
            assert(!opens);
            assert(!skipped(st, line));
            assert(ls.subrange(k, j) =~= seq![line]);
            assert(ls.take(i) + indent_all(nl, ind) + ls.subrange(k, j) =~= (ls.take(i) + indent_all(nl, ind)).push(line));
        } else {
            assert(!opens);
            assert(ls.subrange(k, j) =~= ls.subrange(k, j - 1).push(line));
            assert(ls.take(i) + indent_all(nl, ind) + ls.subrange(k, j)
                =~= (ls.take(i) + indent_all(nl, ind) + ls.subrange(k, j - 1)).push(line));
        }
    }
}

/// The lines the edit writes: those before the entry, the new lines
/// indented like the entry, and those after the lines under it.
proof fn lemma_run_shape(ls: Seq<Seq<char>>, name: Seq<char>, nl: Seq<Seq<char>>, i: int)
    requires
        opens_only_at(ls, name, nl, i),
    ensures
        update_run(ls, name, nl).out == ls.take(i) + indent_all(nl, indent_of(ls[i]))
            + ls.skip(skip_end(ls, i + 1, indent_of(ls[i]))),
        update_run(ls, name, nl).found,
{
    let ind = indent_of(ls[i]);
    let k = skip_end(ls, i + 1, ind);
    lemma_skip_end(ls, i + 1, ind);
    lemma_run_prefix(ls, name, nl, i, ls.len() as int);
    assert(ls.take(ls.len() as int) =~= ls);
    if k < ls.len() {
        assert(ls.subrange(k, ls.len() as int) =~= ls.skip(k));
    } else {
        assert(ls.skip(k) =~= Seq::<Seq<char>>::empty());
        assert(ls.take(i) + indent_all(nl, ind) + ls.skip(k) =~= ls.take(i) + indent_all(nl, ind));
    }
    lemma_found_stays(ls, name, nl, i, ls.len() as int);
}

proof fn lemma_found_stays(ls: Seq<Seq<char>>, name: Seq<char>, nl: Seq<Seq<char>>, i: int, j: int)
    requires
        opens_only_at(ls, name, nl, i),
        i < j <= ls.len(),
    ensures
        update_run(ls.take(j), name, nl).found,
    decreases j,
{
    let st = update_run(ls.take(j - 1), name, nl);
    let line = ls[j - 1];
    assert(ls.take(j).drop_last() =~= ls.take(j - 1));
    assert(ls.take(j).last() == line);
    assert(update_run(ls.take(j), name, nl) == (if skipped(st, line) { st } else { update_visit(st, line, name, nl) }));
    if j - 1 == i {
        assert(edit_opens_at(ls, name, nl, i));
    } else {
        lemma_found_stays(ls, name, nl, i, j - 1);
    }
}

proof fn lemma_body_of_new_lines(
    pre: Seq<Seq<char>>,
    nl: Seq<Seq<char>>,
    rest: Seq<Seq<char>>,
    ind: nat,
    q: int,
)
    requires
        1 <= q <= nl.len(),
        forall|p: int| 1 <= p < nl.len() ==> body_line(#[trigger] nl[p]),
        entry_body(pre + indent_all(nl, ind) + rest, (pre.len() + nl.len()) as int, ind) == Seq::<Seq<char>>::empty(),
    ensures
        entry_body(pre + indent_all(nl, ind) + rest, pre.len() + q, ind) == nl.subrange(q, nl.len() as int),
    decreases nl.len() - q,
{
    let out = pre + indent_all(nl, ind) + rest;
    let j = pre.len() + q;
    if q == nl.len() {
        assert(nl.subrange(q, nl.len() as int) =~= Seq::<Seq<char>>::empty());
    } else {
        lemma_body_of_new_lines(pre, nl, rest, ind, q + 1);
        assert(out[j] == spaces(ind) + nl[q]);
        lemma_spaces_front(ind, nl[q]);
        assert(body_line(nl[q]));
        let l = nl[q];
        assert(indent_of(l) >= 1) by {
            assert(l[0] == ' ');
            assert(spec_is_whitespace(' '));
        }
        assert(nl.subrange(q, nl.len() as int) =~= seq![nl[q]] + nl.subrange(q + 1, nl.len() as int));
    }
}

/// Law: extracting a fiber type right after replacing it gives the new
/// text back, line for line. This holds when no line of the text or of the
/// new text keeps a carriage return at its end (CRLF line ends lose theirs),
/// the extraction and the edit both find the entry at
/// line `i` (the edit at no other line), and the new text starts with the
/// entry's name line with every later line of it indented with spaces and
/// not blank.
pub proof fn law_extract_after_update(yaml: Seq<char>, name: Seq<char>, f: Seq<char>, i: int)
    requires
        no_cr_line_end(yaml),
        no_cr_line_end(f),
        entry_at(str_lines(yaml), name, 0, false) == Some(i),
        opens_only_at(str_lines(yaml), name, str_lines(f), i),
        str_lines(f).len() > 0,
        is_entry_of(str_lines(f)[0], name),
        forall|q: int| 1 <= q < str_lines(f).len() ==> body_line(#[trigger] str_lines(f)[q]),
    ensures
        spec_update_fiber_type(yaml, name, f) is Some,
        spec_extract_fiber_type(spec_update_fiber_type(yaml, name, f)->0, name)
            == Some(join_with(str_lines(f), seq!['\n'])),
{
    let ls = str_lines(yaml);
    let nl = str_lines(f);
    let ind = indent_of(ls[i]);
    let k = skip_end(ls, i + 1, ind);
    lemma_skip_end(ls, i + 1, ind);
    lemma_run_shape(ls, name, nl, i);
    let pre = ls.take(i);
    let rest = ls.skip(k);
    let out = pre + indent_all(nl, ind) + rest;
    assert(update_run(ls, name, nl).out == out);
    let s = join_with(out, seq!['\n']);
    assert(spec_update_fiber_type(yaml, name, f) == Some(s));
    // the edited text reads back as the edited lines
    lemma_lines_one_line(yaml);
    lemma_lines_one_line(f);
    let n0 = nl[0];
    reveal_strlit(":");
    assert(n0.len() > 0) by {
        assert(occurs_at(n0, name + ":"@, 0));
    }
    lemma_entry_at_found(ls, name, 0, false);
    assert forall|q: int| 0 <= q < pre.len() implies one_line(#[trigger] pre[q]) by {
        assert(pre[q] == ls[q]);
    }
    assert forall|q: int| 0 <= q < rest.len() implies one_line(#[trigger] rest[q]) by {
        assert(rest[q] == ls[k + q]);
    }
    lemma_written_one_line(pre, nl, rest, ind);
    // the text reads back as the lines written, but for a last empty one
    let lastl = nl.last();
    assert(lastl.len() > 0) by {
        if nl.len() > 1 {
            assert(body_line(nl[nl.len() - 1]));
        }
    }
    assert(out.last().len() == 0 ==> rest.len() > 0) by {
        if rest.len() == 0 {
            assert(out.last() == spaces(ind) + lastl);
        }
    }
    lemma_lines_of_joined_any(out);
    let rest2 = if out.last().len() == 0 { rest.drop_last() } else { rest };
    let lines = pre + indent_all(nl, ind) + rest2;
    assert(str_lines(s) =~= lines);
    // the extraction finds the new name line where the old one was
    lemma_spaces_front(ind, n0);
    assert(trim_start_ws(n0) == n0) by {
        assert(occurs_at(n0, name + ":"@, 0));
        let t = trim_start_ws(ls[i]);
        assert(is_entry_of(t, name));
        let p = name + ":"@;
        assert(occurs_at(t, p, 0));
        assert(n0.subrange(0, p.len() as int) == p && t.subrange(0, p.len() as int) == p);
        assert(n0.subrange(0, p.len() as int)[0] == n0[0]);
        assert(t.subrange(0, p.len() as int)[0] == t[0]);
        lemma_trim_first(ls[i]);
        lemma_trim_first(n0);
    }
    assert(indent_of(n0) == 0) by {
        assert(trim_start_ws(n0) == n0);
        lemma_trim_first(n0);
    }
    assert(lines[i] == spaces(ind) + n0);
    lemma_same_header(trim_start_ws(ls[i]), n0, name);
    assert forall|q: int| 0 <= q < i implies ls[q] == lines[q] by {}
    lemma_entry_at_agree(ls, lines, name, 0, false, i);
    lemma_entry_at_find(lines, name, 0, false);
    if rest2.len() > 0 {
        assert(rest2[0] == rest[0]);
        assert(rest[0] == ls[k]);
        assert(lines[(pre.len() + nl.len()) as int] == rest2[0]);
    }
    lemma_body_of_new_lines(pre, nl, rest2, ind, 1);
    assert(seq![n0] + nl.subrange(1, nl.len() as int) =~= nl);
}

proof fn lemma_entry_at_found(ls: Seq<Seq<char>>, name: Seq<char>, j: int, s: bool)
    ensures
        entry_at(ls, name, j, s) matches Some(e) ==> 0 <= e < ls.len()
            && is_entry_of(trim_start_ws(ls[e]), name)
            && !is_section_header(trim_start_ws(ls[e]))
            && !(is_content(trim_start_ws(ls[e])) && indent_of(ls[e]) == 0),
    decreases ls.len() - j,
{
    if 0 <= j < ls.len() {
        lemma_entry_at_found(ls, name, j + 1, true);
        lemma_entry_at_found(ls, name, j + 1, false);
    }
}

/// The first line from `j` on with content at no indent (a top-level
/// line), or the number of lines.
pub open spec fn top_level_from(ls: Seq<Seq<char>>, j: int) -> int
    decreases ls.len() - j,
{
    if j < 0 || j >= ls.len() {
        ls.len() as int
    } else if is_content(trim_start_ws(ls[j])) && indent_of(ls[j]) == 0 {
        j
    } else {
        top_level_from(ls, j + 1)
    }
}

proof fn lemma_top_level_from(ls: Seq<Seq<char>>, j: int)
    requires
        0 <= j <= ls.len(),
    ensures
        j <= top_level_from(ls, j) <= ls.len(),
        forall|q: int| j <= q < top_level_from(ls, j)
            ==> !(is_content(trim_start_ws(#[trigger] ls[q])) && indent_of(ls[q]) == 0),
        top_level_from(ls, j) < ls.len() ==> is_content(trim_start_ws(ls[top_level_from(ls, j)]))
            && indent_of(ls[top_level_from(ls, j)]) == 0,
    decreases ls.len() - j,
{
    if j < ls.len() {
        lemma_top_level_from(ls, j + 1);
    }
}

/// The indent a new entry takes: that of the line after the section
/// header when it has content, else two spaces.
pub open spec fn add_indent(ls: Seq<Seq<char>>, h: int) -> nat {
    if h + 1 < ls.len() && is_content(trim_start_ws(ls[h + 1])) { indent_of(ls[h + 1]) } else { 2 }
}

/// Line `h` is the only fiber types section header.
pub open spec fn only_header_at(ls: Seq<Seq<char>>, h: int) -> bool {
    &&& 0 <= h < ls.len()
    &&& forall|q: int| 0 <= q < ls.len() ==> (is_section_header(trim_start_ws(#[trigger] ls[q])) <==> q == h)
}

proof fn lemma_add_prefix(ls: Seq<Seq<char>>, nl: Seq<Seq<char>>, h: int, j: int)
    requires
        only_header_at(ls, h),
        !(h + 1 < ls.len() && is_content(trim_start_ws(ls[h + 1])) && indent_of(ls[h + 1]) == 0),
        0 <= j <= ls.len(),
    ensures
        ({
            let e = top_level_from(ls, h + 1);
            let ind = add_indent(ls, h);
            let st = add_run(ls.take(j), nl);
            &&& j <= h ==> st.out == ls.take(j) && st.mode is Top && !st.found
            &&& j == h + 1 ==> st.out == ls.take(j) && st.mode is AwaitIndent && st.found
            &&& h + 1 < j <= e ==> st.out == ls.take(j) && st.mode == AddMode::InSection(ind) && st.found
            &&& e < j ==> st.out == ls.take(e) + indent_all(nl, ind) + seq![Seq::<char>::empty()] + ls.subrange(e, j)
                && st.mode is Top && st.found
        }),
    decreases j,
{
    let e = top_level_from(ls, h + 1);
    let ind = add_indent(ls, h);
    lemma_top_level_from(ls, h + 1);
    if j == 0 {
        assert(ls.take(0) =~= Seq::<Seq<char>>::empty());
    } else {
        lemma_add_prefix(ls, nl, h, j - 1);
        let st = add_run(ls.take(j - 1), nl);
        let line = ls[j - 1];
        assert(ls.take(j).drop_last() =~= ls.take(j - 1));
        assert(ls.take(j).last() == line);
        assert(ls.take(j - 1).push(line) =~= ls.take(j));
        let hd = is_section_header(trim_start_ws(line));
        if j - 1 < h {
            assert(!hd);
        } else if j - 1 == h {
            assert(hd);
        } else if j - 1 < e {
            assert(!(is_content(trim_start_ws(ls[j - 1])) && indent_of(ls[j - 1]) == 0));
            if j - 1 == h + 1 {
                assert(h + 1 < ls.len());
            }
        } else if j - 1 == e {
            assert(!hd);
            assert(ls.subrange(e, j) =~= seq![line]);
            assert(ls.take(e) + indent_all(nl, ind) + seq![Seq::<char>::empty()] + ls.subrange(e, j)
                =~= (ls.take(e) + indent_all(nl, ind) + seq![Seq::<char>::empty()]).push(line));
            assert(e > h + 1);
        } else {
            assert(!hd);
            assert(ls.take(e) + indent_all(nl, ind) + seq![Seq::<char>::empty()] + ls.subrange(e, j)
                =~= (ls.take(e) + indent_all(nl, ind) + seq![Seq::<char>::empty()] + ls.subrange(e, j - 1)).push(line));
        }
    }
}

/// The search scans lines that are neither headers, top-level lines nor
/// entries of `name`, and finds the entry at line `ins`.
proof fn lemma_scan_to(ls: Seq<Seq<char>>, name: Seq<char>, j: int, ins: int)
    requires
        0 <= j <= ins < ls.len(),
        forall|q: int| j <= q < ins ==> {
            let t = trim_start_ws(#[trigger] ls[q]);
            !is_section_header(t) && !(is_content(t) && indent_of(ls[q]) == 0) && !is_entry_of(t, name)
        },
        !is_section_header(trim_start_ws(ls[ins])),
        !(is_content(trim_start_ws(ls[ins])) && indent_of(ls[ins]) == 0),
        is_entry_of(trim_start_ws(ls[ins]), name),
    ensures
        entry_at(ls, name, j, true) == Some(ins),
    decreases ins - j,
{
    if j < ins {
        lemma_scan_to(ls, name, j + 1, ins);
    }
}

/// Before the only header, the search is outside the section.
proof fn lemma_scan_to_header(ls: Seq<Seq<char>>, name: Seq<char>, j: int, h: int)
    requires
        0 <= j <= h < ls.len(),
        forall|q: int| j <= q < h ==> !is_section_header(trim_start_ws(#[trigger] ls[q])),
        is_section_header(trim_start_ws(ls[h])),
    ensures
        entry_at(ls, name, j, false) == entry_at(ls, name, h + 1, true),
    decreases h - j,
{
    if j < h {
        lemma_scan_to_header(ls, name, j + 1, h);
    }
}

/// A search inside the section that finds nothing before a top-level line
/// passes no entry of `name`.
proof fn lemma_scan_none(ls: Seq<Seq<char>>, name: Seq<char>, j: int, e: int)
    requires
        0 <= j <= e <= ls.len(),
        entry_at(ls, name, j, true) is None,
        forall|q: int| j <= q < e ==> !is_section_header(trim_start_ws(#[trigger] ls[q]))
            && !(is_content(trim_start_ws(ls[q])) && indent_of(ls[q]) == 0),
    ensures
        forall|q: int| j <= q < e ==> !is_entry_of(trim_start_ws(#[trigger] ls[q]), name),
    decreases e - j,
{
    if j < e {
        assert(!is_section_header(trim_start_ws(ls[j])));
        lemma_scan_none(ls, name, j + 1, e);
    }
}

/// The lines before the added entry: those before the first top-level line
/// after the section header, or all of them and a blank line.
pub open spec fn add_pre(ls: Seq<Seq<char>>, h: int) -> Seq<Seq<char>> {
    let e = top_level_from(ls, h + 1);
    if e < ls.len() { ls.take(e) } else { ls.push(Seq::<char>::empty()) }
}

/// The lines after the added entry: a blank line and the top-level line
/// with those after it, or nothing.
pub open spec fn add_rest(ls: Seq<Seq<char>>, h: int) -> Seq<Seq<char>> {
    let e = top_level_from(ls, h + 1);
    if e < ls.len() { seq![Seq::<char>::empty()] + ls.skip(e) } else { Seq::<Seq<char>>::empty() }
}

proof fn lemma_add_written(ls: Seq<Seq<char>>, nl: Seq<Seq<char>>, h: int)
    requires
        only_header_at(ls, h),
        !(h + 1 < ls.len() && is_content(trim_start_ws(ls[h + 1])) && indent_of(ls[h + 1]) == 0),
    ensures
        add_run(ls, nl).found,
        add_finish(add_run(ls, nl), nl) == add_pre(ls, h) + indent_all(nl, add_indent(ls, h)) + add_rest(ls, h),
        add_indent(ls, h) > 0,
{
    let e = top_level_from(ls, h + 1);
    let ind = add_indent(ls, h);
    lemma_top_level_from(ls, h + 1);
    lemma_add_prefix(ls, nl, h, ls.len() as int);
    assert(ls.take(ls.len() as int) =~= ls);
    let st = add_run(ls, nl);
    if e < ls.len() {
        assert(ls.subrange(e, ls.len() as int) =~= ls.skip(e));
        assert(add_finish(st, nl) =~= add_pre(ls, h) + indent_all(nl, ind) + add_rest(ls, h));
    } else {
        if h + 1 < ls.len() {
            assert(st.mode == AddMode::InSection(ind));
        } else {
            assert(st.mode is AwaitIndent);
        }
        assert(add_finish(st, nl) =~= add_pre(ls, h) + indent_all(nl, ind) + add_rest(ls, h));
    }
}

/// Lines written around indented new lines are single lines when all the
/// pieces are.
proof fn lemma_written_one_line(pre: Seq<Seq<char>>, nl: Seq<Seq<char>>, rest: Seq<Seq<char>>, ind: nat)
    requires
        forall|q: int| 0 <= q < pre.len() ==> one_line(#[trigger] pre[q]),
        forall|q: int| 0 <= q < nl.len() ==> one_line(#[trigger] nl[q]),
        forall|q: int| 0 <= q < rest.len() ==> one_line(#[trigger] rest[q]),
    ensures
        forall|q: int| 0 <= q < (pre + indent_all(nl, ind) + rest).len()
            ==> one_line(#[trigger] (pre + indent_all(nl, ind) + rest)[q]),
{
    let out = pre + indent_all(nl, ind) + rest;
    assert forall|q: int| 0 <= q < out.len() implies one_line(#[trigger] out[q]) by {
        if q < pre.len() {
            assert(out[q] == pre[q]);
        } else if q < pre.len() + nl.len() {
            let l = nl[q - pre.len()];
            assert(out[q] == spaces(ind) + l);
            assert(one_line(l));
            let x = spaces(ind) + l;
            if x.contains('\n') {
                let w = choose|w: int| 0 <= w < x.len() && x[w] == '\n';
                if w >= ind {
                    assert(x[w] == l[w - ind]);
                }
            }
            if x.len() > 0 && x.last() == '\r' {
                if l.len() > 0 {
                    assert(x.last() == l.last());
                } else {
                    assert(x.last() == x[x.len() - 1]);
                }
            }
        } else {
            assert(out[q] == rest[q - pre.len() - nl.len()]);
        }
    }
}

/// Law: extracting a fiber type right after adding it gives its text back,
/// line for line. This holds when no line of the text or of the new text
/// keeps a carriage return at its end (CRLF line ends lose theirs), the
/// text has one fiber types section header (line
/// `h`), the line after it is not a top-level line (the entry would then be
/// added with no indent), no fiber type `name` is found in the text yet,
/// and the new text starts with the entry's name line (neither a section
/// header nor indented) with every later line indented with spaces and not
/// blank.
#[verifier::rlimit(50)]
pub proof fn law_extract_after_add(yaml: Seq<char>, name: Seq<char>, f: Seq<char>, h: int)
    requires
        no_cr_line_end(yaml),
        no_cr_line_end(f),
        only_header_at(str_lines(yaml), h),
        !(h + 1 < str_lines(yaml).len() && is_content(trim_start_ws(str_lines(yaml)[h + 1]))
            && indent_of(str_lines(yaml)[h + 1]) == 0),
        spec_extract_fiber_type(yaml, name) is None,
        str_lines(f).len() > 0,
        is_entry_of(str_lines(f)[0], name),
        !is_section_header(str_lines(f)[0]),
        !spec_is_whitespace(str_lines(f)[0][0]),
        forall|q: int| 1 <= q < str_lines(f).len() ==> body_line(#[trigger] str_lines(f)[q]),
    ensures
        spec_add_fiber_type(yaml, f) is Some,
        spec_extract_fiber_type(spec_add_fiber_type(yaml, f)->0, name) == Some(join_with(str_lines(f), seq!['\n'])),
{
    let ls = str_lines(yaml);
    let nl = str_lines(f);
    let e = top_level_from(ls, h + 1);
    let ind = add_indent(ls, h);
    lemma_top_level_from(ls, h + 1);
    lemma_add_written(ls, nl, h);
    let ins: int = if e < ls.len() { e } else { ls.len() as int + 1 };
    let pre = add_pre(ls, h);
    let rest = add_rest(ls, h);
    let out = pre + indent_all(nl, ind) + rest;
    assert(pre.len() == ins);
    let s = join_with(out, seq!['\n']);
    assert(spec_add_fiber_type(yaml, f) == Some(s));
    // the written text reads back as the written lines, but for a last
    // empty one
    lemma_lines_one_line(yaml);
    lemma_lines_one_line(f);
    assert forall|q: int| 0 <= q < pre.len() implies one_line(#[trigger] pre[q]) by {
        if q < ls.len() {
            assert(pre[q] == ls[q]);
        } else {
            assert(pre[q] =~= Seq::<char>::empty());
        }
    }
    assert forall|q: int| 0 <= q < rest.len() implies one_line(#[trigger] rest[q]) by {
        if q > 0 {
            assert(rest[q] == ls[e + q - 1]);
        } else {
            assert(rest[q] =~= Seq::<char>::empty());
        }
    }
    lemma_written_one_line(pre, nl, rest, ind);
    let n0 = nl[0];
    reveal_strlit(":");
    assert(n0.len() > 0) by {
        assert(occurs_at(n0, name + ":"@, 0));
    }
    let lastl = nl.last();
    assert(lastl.len() > 0) by {
        if nl.len() > 1 {
            assert(body_line(nl[nl.len() - 1]));
        }
    }
    assert(out.last().len() == 0 ==> rest.len() > 2) by {
        if rest.len() == 0 {
            assert(out.last() == spaces(ind) + lastl);
        } else if rest.len() <= 2 {
            assert(rest.len() == 2);
            assert(out.last() == ls[e]);
            assert(trim_start_ws(ls[e]).len() > 0);
            lemma_trim_first(ls[e]);
            if ls[e].len() == 0 {
                assert(trim_start_ws(ls[e]) == ls[e]);
            }
        }
    }
    lemma_lines_of_joined_any(out);
    let rest2 = if out.last().len() == 0 { rest.drop_last() } else { rest };
    let lines = pre + indent_all(nl, ind) + rest2;
    assert(str_lines(s) =~= lines);
    // the new name line, where the search finds it
    lemma_trim_first(n0);
    lemma_spaces_front(ind, n0);
    assert(lines[ins] == spaces(ind) + n0);
    lemma_entry_at_find(ls, name, 0, false);
    lemma_scan_to_header(ls, name, 0, h);
    assert forall|q: int| h + 1 <= q < e implies !is_section_header(trim_start_ws(#[trigger] ls[q]))
        && !(is_content(trim_start_ws(ls[q])) && indent_of(ls[q]) == 0) by {
        assert(q != h);
    }
    lemma_scan_none(ls, name, h + 1, e);
    assert forall|q: int| 0 <= q < h implies !is_section_header(trim_start_ws(#[trigger] lines[q])) by {
        assert(lines[q] == ls[q]);
        assert(q != h);
    }
    assert(lines[h] == ls[h]);
    lemma_scan_to_header(lines, name, 0, h);
    assert forall|q: int| h + 1 <= q < ins implies {
        let t = trim_start_ws(#[trigger] lines[q]);
        !is_section_header(t) && !(is_content(t) && indent_of(lines[q]) == 0) && !is_entry_of(t, name)
    } by {
        if q < e {
            assert(lines[q] == ls[q]);
            assert(q != h);
            assert(!is_entry_of(trim_start_ws(ls[q]), name));
        } else {
            assert(lines[q] =~= Seq::<char>::empty());
            assert(trim_start_ws(lines[q]) =~= Seq::<char>::empty());
            reveal_strlit("fiber_types:");
        }
    }
    lemma_scan_to(lines, name, h + 1, ins);
    lemma_entry_at_find(lines, name, 0, false);
    let j = ins + nl.len();
    if e < ls.len() {
        assert(rest2.len() >= 2);
        assert(lines[j] =~= Seq::<char>::empty());
        assert(lines[j + 1] == ls[e]);
        assert(trim_start_ws(lines[j]) =~= Seq::<char>::empty());
        assert(next_nonblank(lines, j + 1) == j + 1);
    }
    lemma_body_of_new_lines(pre, nl, rest2, ind, 1);
    assert(seq![n0] + nl.subrange(1, nl.len() as int) =~= nl);
}

/// A trimmed text that is not empty starts with something other than
/// whitespace, and a text that does is its own trim with no indent.
proof fn lemma_trim_first(l: Seq<char>)
    ensures
        trim_start_ws(l).len() > 0 ==> !spec_is_whitespace(trim_start_ws(l)[0]),
        l.len() > 0 && !spec_is_whitespace(l[0]) ==> trim_start_ws(l) == l && indent_of(l) == 0,
    decreases l.len(),
{
    if l.len() > 0 && spec_is_whitespace(l[0]) {
        lemma_trim_first(l.drop_first());
    }
}

/// Two trimmed lines that both open the entry `name` open the section
/// alike, and are alike content or comment.
proof fn lemma_same_header(a: Seq<char>, b: Seq<char>, name: Seq<char>)
    requires
        is_entry_of(a, name),
        is_entry_of(b, name),
    ensures
        is_section_header(a) == is_section_header(b),
        is_content(a) == is_content(b),
{
    reveal_strlit(":");
    let p = name + ":"@;
    let h = "fiber_types:"@;
    assert(a.subrange(0, p.len() as int) == p);
    assert(b.subrange(0, p.len() as int) == p);
    assert(a[0] == p[0] && b[0] == p[0]) by {
        assert(a.subrange(0, p.len() as int)[0] == a[0]);
        assert(b.subrange(0, p.len() as int)[0] == b[0]);
    }
    reveal_strlit("fiber_types:");
    if p.len() >= h.len() {
        assert(a.subrange(0, h.len() as int) =~= p.subrange(0, h.len() as int));
        assert(b.subrange(0, h.len() as int) =~= p.subrange(0, h.len() as int));
    } else {
        // ':' ends the name part, where the section header has a letter
        let e = p.len() - 1;
        assert(p[e] == ':');
        if is_section_header(a) {
            assert(a[e] == h[e]);
            assert(a.subrange(0, p.len() as int)[e] == a[e]);
        }
        if is_section_header(b) {
            assert(b[e] == h[e]);
            assert(b.subrange(0, p.len() as int)[e] == b[e]);
        }
    }
}

} // verus!

use vstd::prelude::*;
use crate::assoc::{AssocMap, to_map, has_key, lemma_to_map_unique, lemma_to_map_finite};
use crate::config::types::{AttributeType, FiberTypeConfig, GapMode, PatternConfig, AttributeConfig, FiberSourceConfig};
use crate::matcher::{CompiledRegex, regex_accepts, regex_group_names, opt_views};
use crate::time::Nanos;
use crate::text::{clone_strings, chars_of, string_from_chars, replace_chars, replace_all, string_views, contains_string, lemma_string_views_push, lemma_string_views_drop_last};

verus! {

/// Errors met when a fiber type is compiled.
#[derive(Debug)]
pub enum RuleError {
    RegexCompilation { pattern: String, source: regex::Error },
    CircularDependency(String),
    UndefinedReference { attr: String, reference: String },
    KeyNotExtractable { key: String },
    ReleaseMatchingNotKey { key: String },
    ReleaseSelfNotKey { key: String },
    DuplicateAttribute(String),
}

/// A template for a derived attribute, such as `${ip}:${port}`.
pub struct DerivedTemplate {
    /// The template text.
    pub template: String,
    /// The attribute names the template refers to, each once, in order of
    /// first reference.
    pub dependencies: Vec<String>,
}

impl View for DerivedTemplate {
    type V = (Seq<char>, Seq<Seq<char>>);

    open spec fn view(&self) -> (Seq<char>, Seq<Seq<char>>) {
        (self.template@, string_views(self.dependencies@))
    }
}

/// The position of the first `}` at or after `i`, or the length.
pub open spec fn close_brace_pos(c: Seq<char>, i: int) -> int
    decreases c.len() - i,
{
    if i >= c.len() {
        c.len() as int
    } else if c[i] == '}' {
        i
    } else {
        close_brace_pos(c, i + 1)
    }
}

pub proof fn lemma_close_brace_pos(c: Seq<char>, i: int)
    ensures
        close_brace_pos(c, i) >= i || (i > c.len() && close_brace_pos(c, i) == c.len()),
        close_brace_pos(c, i) <= c.len() || i > c.len(),
        forall|k: int| i <= k < close_brace_pos(c, i) ==> #[trigger] c[k] != '}',
        close_brace_pos(c, i) < c.len() ==> c[close_brace_pos(c, i)] == '}',
    decreases c.len() - i,
{
    if i < c.len() && c[i] != '}' {
        lemma_close_brace_pos(c, i + 1);
    }
}

/// The names written as `${name}` in the template from position `i` on, in
/// order, repeats and empty names included.
pub open spec fn template_refs(c: Seq<char>, i: int) -> Seq<Seq<char>>
    decreases c.len() - i,
{
    if i < 0 || i >= c.len() {
        Seq::empty()
    } else if i + 1 < c.len() && c[i] == '$' && c[i + 1] == '{' {
        let end = close_brace_pos(c, i + 2);
        proof {
            lemma_close_brace_pos(c, i + 2);
        }
        if end < c.len() {
            seq![c.subrange(i + 2, end)] + template_refs(c, end + 1)
        } else {
            template_refs(c, i + 1)
        }
    } else {
        template_refs(c, i + 1)
    }
}

/// The non-empty names of `s`, each once, in order of first appearance.
pub open spec fn distinct_nonempty(s: Seq<Seq<char>>) -> Seq<Seq<char>>
    decreases s.len(),
{
    if s.len() == 0 {
        Seq::empty()
    } else {
        let r = distinct_nonempty(s.drop_last());
        if s.last().len() == 0 || r.contains(s.last()) {
            r
        } else {
            r.push(s.last())
        }
    }
}

/// The dependencies of a template.
pub open spec fn template_dependencies(t: Seq<char>) -> Seq<Seq<char>> {
    distinct_nonempty(template_refs(t, 0))
}

/// The placeholder `${name}`.
pub open spec fn placeholder(d: Seq<char>) -> Seq<char> {
    seq!['$', '{'] + d + seq!['}']
}

/// The template with the placeholder of each dependency, in order, replaced
/// by its value.
pub open spec fn apply_replacements(t: Seq<char>, deps: Seq<Seq<char>>, values: Map<Seq<char>, Seq<char>>) -> Seq<char>
    decreases deps.len(),
{
    if deps.len() == 0 {
        t
    } else {
        replace_all(apply_replacements(t, deps.drop_last(), values), placeholder(deps.last()), values[deps.last()])
    }
}

/// The value of a derived attribute, when every dependency has a value.
pub open spec fn spec_interpolate(tv: (Seq<char>, Seq<Seq<char>>), values: Map<Seq<char>, Seq<char>>) -> Option<Seq<char>> {
    if forall|i: int| 0 <= i < tv.1.len() ==> values.dom().contains(#[trigger] tv.1[i]) {
        Some(apply_replacements(tv.0, tv.1, values))
    } else {
        None
    }
}

fn contains_name(v: &Vec<Vec<char>>, name: &Vec<char>) -> (b: bool)
    ensures
        b == crate::text::views(v@).contains(name@),
{
    let mut i: usize = 0;
    while i < v.len()
        invariant
            i <= v@.len(),
            forall|j: int| 0 <= j < i ==> v@[j]@ != name@,
        decreases v@.len() - i,
    {
        if crate::text::chars_equal(v[i].as_slice(), name.as_slice()) {
            assert(crate::text::views(v@)[i as int] == name@);
            return true;
        }
        i += 1;
    }
    false
}

impl DerivedTemplate {
    /// Reads a template and finds the attribute names it refers to.
    pub fn from_template(template: &str) -> (t: DerivedTemplate)
        ensures
            t@.0 == template@,
            t@.1 == template_dependencies(template@),
    {
        let c = chars_of(template);
        let ghost cs = c@;
        let mut deps: Vec<Vec<char>> = Vec::new();
        let ghost mut found: Seq<Seq<char>> = Seq::empty();
        let mut i: usize = 0;
        while i < c.len()
            invariant
                cs == c@,
                i <= c@.len(),
                found + template_refs(cs, i as int) == template_refs(cs, 0),
                crate::text::views(deps@) == distinct_nonempty(found),
            decreases c@.len() - i,
        {
            if i + 1 < c.len() && c[i] == '$' && c[i + 1] == '{' {
                let start = i + 2;
                let mut end = start;
                proof {
                    lemma_close_brace_pos(cs, start as int);
                }
                while end < c.len() && c[end] != '}'
                    invariant
                        cs == c@,
                        start <= end <= c@.len(),
                        close_brace_pos(cs, start as int) >= end,
                        forall|k: int| start <= k < close_brace_pos(cs, start as int) ==> #[trigger] cs[k] != '}',
                        close_brace_pos(cs, start as int) < cs.len() ==> cs[close_brace_pos(cs, start as int)] == '}',
                        close_brace_pos(cs, start as int) <= cs.len(),
                    decreases c@.len() - end,
                {
                    end += 1;
                }
                assert(end == close_brace_pos(cs, start as int));
                if end < c.len() {
                    let mut name: Vec<char> = Vec::new();
                    let mut k = start;
                    while k < end
                        invariant
                            cs == c@,
                            start <= k <= end <= c@.len(),
                            name@ == cs.subrange(start as int, k as int),
                        decreases end - k,
                    {
                        name.push(c[k]);
                        assert(name@ =~= cs.subrange(start as int, k as int + 1));
                        k += 1;
                    }
                    proof {
                        let f2 = found.push(name@);
                        assert(f2.drop_last() =~= found);
                        assert(f2 + template_refs(cs, end as int + 1) =~= found + template_refs(cs, i as int));
                    }
                    if name.len() > 0 && !contains_name(&deps, &name) {
                        deps.push(name);
                    }
                    proof {
                        found = found.push(cs.subrange(start as int, end as int));
                    }
                    assert(crate::text::views(deps@) =~= distinct_nonempty(found));
                    i = end + 1;
                } else {
                    i += 1;
                }
            } else {
                i += 1;
            }
        }
        assert(found + template_refs(cs, i as int) =~= found);
        let mut names: Vec<String> = Vec::new();
        let mut m: usize = 0;
        while m < deps.len()
            invariant
                m <= deps@.len(),
                string_views(names@) == crate::text::views(deps@).take(m as int),
            decreases deps@.len() - m,
        {
            let ghost before = names@;
            assert(string_views(before).len() == before.len());
            assert(crate::text::views(deps@).len() == deps@.len());
            assert(crate::text::views(deps@).take(m as int).len() == m);
            assert(before.len() == m);
            assert(string_views(before).len() == m);
            let nm = string_from_chars(deps[m].as_slice());
            assert(nm@ == crate::text::views(deps@)[m as int]);
            names.push(nm);
            assert(names@ == before.push(nm));
            assert(string_views(names@).len() == m + 1);
            assert forall|j: int| 0 <= j < m + 1 implies #[trigger] string_views(names@)[j] == crate::text::views(deps@).take(m as int + 1)[j] by {
                if j < m {
                    assert(string_views(before)[j] == crate::text::views(deps@).take(m as int)[j]);
                }
            }
            assert(string_views(names@) =~= crate::text::views(deps@).take(m as int + 1));
            m += 1;
        }
        assert(crate::text::views(deps@).take(deps@.len() as int) =~= crate::text::views(deps@));
        DerivedTemplate { template: template.to_string(), dependencies: names }
    }

    /// The template with each placeholder replaced by its value; `None` when
    /// some dependency has no value.
    pub fn interpolate(&self, values: &AssocMap<String, String>) -> (r: Option<String>)
        requires
            values.wf(),
        ensures
            match r {
                Some(s) => spec_interpolate(self@, values.map()) == Some(s@),
                None => spec_interpolate(self@, values.map()) is None,
            },
    {
        let n = self.dependencies.len();
        let mut i: usize = 0;
        while i < n
            invariant
                n == self.dependencies@.len(),
                i <= n,
                values.wf(),
                forall|j: int| 0 <= j < i ==> values.map().dom().contains(#[trigger] self@.1[j]),
            decreases n - i,
        {
            if !values.contains_key(&self.dependencies[i]) {
                assert(self@.1[i as int] == self.dependencies@[i as int]@);
                assert(!(forall|j: int| 0 <= j < self@.1.len() ==> values.map().dom().contains(#[trigger] self@.1[j])));
                return None;
            }
            assert(self@.1[i as int] == self.dependencies@[i as int]@);
            i += 1;
        }
        let mut result = chars_of(self.template.as_str());
        let mut k: usize = 0;
        while k < n
            invariant
                n == self.dependencies@.len(),
                k <= n,
                values.wf(),
                forall|j: int| 0 <= j < n ==> values.map().dom().contains(#[trigger] self@.1[j]),
                result@ == apply_replacements(self@.0, self@.1.take(k as int), values.map()),
            decreases n - k,
        {
            let dep = &self.dependencies[k];
            let mut ph: Vec<char> = Vec::new();
            ph.push('$');
            ph.push('{');
            let dc = chars_of(dep.as_str());
            let mut q: usize = 0;
            while q < dc.len()
                invariant
                    q <= dc@.len(),
                    ph@ == seq!['$', '{'] + dc@.take(q as int),
                decreases dc@.len() - q,
            {
                ph.push(dc[q]);
                assert(ph@ =~= seq!['$', '{'] + dc@.take(q as int + 1));
                q += 1;
            }
            ph.push('}');
            assert(dc@.take(dc@.len() as int) =~= dc@);
            assert(ph@ =~= placeholder(self@.1[k as int]));
            let v = values.get(dep).unwrap();
            let vc = chars_of(v.as_str());
            result = replace_chars(result.as_slice(), ph.as_slice(), vc.as_slice());
            assert(self@.1.take(k as int + 1).drop_last() =~= self@.1.take(k as int));
            k += 1;
        }
        assert(self@.1.take(n as int) =~= self@.1);
        assert(forall|i: int| 0 <= i < self@.1.len() ==> values.map().dom().contains(#[trigger] self@.1[i]));
        Some(string_from_chars(result.as_slice()))
    }
}

// ---------------------------------------------------------------------------
// Order of evaluation of derived attributes
// ---------------------------------------------------------------------------

/// `a` is a derived attribute whose template refers to the derived attribute `b`.
pub open spec fn derives_from(t: Map<Seq<char>, (Seq<char>, Seq<Seq<char>>)>, a: Seq<char>, b: Seq<char>) -> bool {
    t.dom().contains(a) && t.dom().contains(b) && t[a].1.contains(b)
}

/// Consecutive names of `p` are related by `derives_from`.
pub open spec fn is_dependency_path(t: Map<Seq<char>, (Seq<char>, Seq<Seq<char>>)>, p: Seq<Seq<char>>) -> bool {
    p.len() >= 1 && forall|i: int| 0 <= i < p.len() - 1 ==> #[trigger] derives_from(t, p[i], p[i + 1])
}

/// The derived attribute depends, through other derived attributes, on itself.
pub open spec fn on_cycle(t: Map<Seq<char>, (Seq<char>, Seq<Seq<char>>)>, n: Seq<char>) -> bool {
    exists|p: Seq<Seq<char>>| #[trigger] is_dependency_path(t, p) && p.len() >= 2 && p[0] == n && p.last() == n
}

/// Every derived attribute appears once and after the derived attributes it refers to.
pub open spec fn is_evaluation_order(t: Map<Seq<char>, (Seq<char>, Seq<Seq<char>>)>, order: Seq<Seq<char>>) -> bool {
    &&& order.no_duplicates()
    &&& forall|n: Seq<char>| #[trigger] t.dom().contains(n) <==> order.contains(n)
    &&& forall|i: int, j: int| 0 <= i < order.len() && 0 <= j < order.len() && #[trigger] derives_from(t, order[j], order[i]) ==> i < j
}

/// A prefix of an evaluation order: no repeats, only derived attributes, each
/// after the derived attributes it refers to.
pub open spec fn partial_order_ok(t: Map<Seq<char>, (Seq<char>, Seq<Seq<char>>)>, r: Seq<Seq<char>>) -> bool {
    &&& r.no_duplicates()
    &&& forall|i: int| 0 <= i < r.len() ==> t.dom().contains(#[trigger] r[i])
    &&& forall|j: int, b: Seq<char>| 0 <= j < r.len() && #[trigger] derives_from(t, r[j], b) ==> exists|i: int| 0 <= i < j && #[trigger] r[i] == b
}

proof fn lemma_stack_bound(t: Map<Seq<char>, (Seq<char>, Seq<Seq<char>>)>, stack: Seq<Seq<char>>, n: Seq<char>)
    requires
        t.dom().finite(),
        stack.no_duplicates(),
        forall|i: int| 0 <= i < stack.len() ==> t.dom().contains(#[trigger] stack[i]),
        !stack.contains(n),
        t.dom().contains(n),
    ensures
        stack.len() < t.dom().len(),
{
    let s2 = stack.push(n);
    assert(s2.no_duplicates()) by {
        assert forall|i: int, j: int| 0 <= i < s2.len() && 0 <= j < s2.len() && i != j implies s2[i] != s2[j] by {
            if i == stack.len() as int && j < stack.len() {
                assert(s2[j] == stack[j]);
            } else if j == stack.len() as int && i < stack.len() {
                assert(s2[i] == stack[i]);
            }
        }
    }
    s2.unique_seq_to_set();
    assert(s2.to_set().subset_of(t.dom())) by {
        assert forall|x: Seq<char>| s2.to_set().contains(x) implies t.dom().contains(x) by {
            let i = choose|i: int| 0 <= i < s2.len() && s2[i] == x;
            if i < stack.len() {
                assert(s2[i] == stack[i]);
            }
        }
    }
    vstd::set_lib::lemma_len_subset(s2.to_set(), t.dom());
}

fn visit(
    name: &String,
    templates: &AssocMap<String, DerivedTemplate>,
    in_progress: &mut Vec<String>,
    result: &mut Vec<String>,
    Ghost(stack): Ghost<Seq<Seq<char>>>,
) -> (r: Result<(), RuleError>)
    requires
        templates.wf(),
        templates.map().dom().contains(name@),
        string_views(old(in_progress)@) == stack,
        stack.no_duplicates(),
        forall|i: int| 0 <= i < stack.len() ==> templates.map().dom().contains(#[trigger] stack[i]),
        stack.len() > 0 ==> is_dependency_path(templates.map(), stack),
        stack.len() > 0 ==> derives_from(templates.map(), stack.last(), name@),
        partial_order_ok(templates.map(), string_views(old(result)@)),
        forall|i: int| 0 <= i < stack.len() ==> !string_views(old(result)@).contains(#[trigger] stack[i]),
    ensures
        match r {
            Ok(()) => {
                &&& string_views(final(in_progress)@) == stack
                &&& final(result)@.len() >= old(result)@.len()
                &&& partial_order_ok(templates.map(), string_views(final(result)@))
                &&& string_views(old(result)@) == string_views(final(result)@).take(old(result)@.len() as int)
                &&& string_views(final(result)@).contains(name@)
                &&& forall|i: int| 0 <= i < stack.len() ==> !string_views(final(result)@).contains(#[trigger] stack[i])
            },
            Err(e) => e matches RuleError::CircularDependency(n) && on_cycle(templates.map(), n@),
        },
    decreases templates.map().dom().len() - stack.len(),
{
    let ghost t = templates.map();
    if contains_string(result, name) {
        assert(string_views(result@).take(result@.len() as int) =~= string_views(result@));
        return Ok(());
    }
    if contains_string(in_progress, name) {
        proof {
            let k = choose|k: int| 0 <= k < stack.len() && stack[k] == name@;
            let p = stack.subrange(k, stack.len() as int).push(name@);
            assert forall|i: int| 0 <= i < p.len() - 1 implies #[trigger] derives_from(t, p[i], p[i + 1]) by {
                if i < p.len() - 2 {
                    assert(p[i] == stack[k + i] && p[i + 1] == stack[k + i + 1]);
                    assert(derives_from(t, stack[k + i], stack[k + i + 1]));
                } else {
                    assert(p[i] == stack.last());
                }
            }
            assert(is_dependency_path(t, p));
        }
        return Err(RuleError::CircularDependency(name.clone()));
    }
    proof {
        lemma_to_map_finite(templates.entries@);
        lemma_stack_bound(t, stack, name@);
    }
    let ghost ip0 = in_progress@;
    let nm = name.clone();
    in_progress.push(nm);
    let ghost stack2 = stack.push(name@);
    proof {
        lemma_string_views_push(ip0, nm);
    }
    assert(string_views(in_progress@) == stack2);
    let template = templates.get(name).unwrap();
    let n = template.dependencies.len();
    let mut i: usize = 0;
    while i < n
        invariant
            n == template.dependencies@.len(),
            t[name@] == template@,
            templates.wf(),
            t == templates.map(),
            t.dom().contains(name@),
            i <= n,
            string_views(in_progress@) == stack2,
            stack2 == stack.push(name@),
            stack.no_duplicates(),
            !stack.contains(name@),
            forall|q: int| 0 <= q < stack.len() ==> t.dom().contains(#[trigger] stack[q]),
            stack.len() > 0 ==> is_dependency_path(t, stack),
            stack.len() > 0 ==> derives_from(t, stack.last(), name@),
            stack.len() < t.dom().len(),
            partial_order_ok(t, string_views(result@)),
            result@.len() >= old(result)@.len(),
            string_views(old(result)@) == string_views(result@).take(old(result)@.len() as int),
            !string_views(result@).contains(name@),
            forall|q: int| 0 <= q < stack.len() ==> !string_views(result@).contains(#[trigger] stack[q]),
            forall|q: int| 0 <= q < i && t.dom().contains(#[trigger] template@.1[q]) ==> string_views(result@).contains(template@.1[q]),
        decreases n - i,
    {
        let dep = &template.dependencies[i];
        if templates.contains_key(dep) {
            proof {
                assert(template@.1[i as int] == dep@);
                assert(derives_from(t, name@, dep@));
                assert(stack2.no_duplicates()) by {
                    assert forall|a: int, b: int| 0 <= a < stack2.len() && 0 <= b < stack2.len() && a != b implies stack2[a] != stack2[b] by {
                        if a < stack.len() && b < stack.len() {} else if a < stack.len() { assert(stack2[a] == stack[a]); } else if b < stack.len() { assert(stack2[b] == stack[b]); }
                    }
                }
                assert(is_dependency_path(t, stack2)) by {
                    assert forall|q: int| 0 <= q < stack2.len() - 1 implies #[trigger] derives_from(t, stack2[q], stack2[q + 1]) by {
                        if q < stack.len() - 1 {
                            assert(stack2[q] == stack[q] && stack2[q + 1] == stack[q + 1]);
                        } else {
                            assert(stack2[q] == stack.last());
                        }
                    }
                }
                assert forall|q: int| 0 <= q < stack2.len() implies !string_views(result@).contains(#[trigger] stack2[q]) by {
                    if q < stack.len() { assert(stack2[q] == stack[q]); }
                }
            }
            let ghost before = string_views(result@);
            match visit(dep, templates, in_progress, result, Ghost(stack2)) {
                Ok(()) => {},
                Err(e) => {
                    return Err(e);
                },
            }
            proof {
                assert forall|q: int| 0 <= q < i + 1 && t.dom().contains(#[trigger] template@.1[q]) implies string_views(result@).contains(template@.1[q]) by {
                    if q < i {
                        let w = choose|w: int| 0 <= w < before.len() && before[w] == template@.1[q];
                        assert(string_views(result@)[w] == before[w]);
                    } else {
                        assert(template@.1[q] == dep@);
                    }
                }
                assert(string_views(old(result)@) =~= string_views(result@).take(old(result)@.len() as int)) by {
                    assert(before.take(old(result)@.len() as int) =~= string_views(result@).take(old(result)@.len() as int));
                }
                assert(!string_views(result@).contains(name@)) by {
                    assert(stack2[stack.len() as int] == name@);
                }
                assert forall|q: int| 0 <= q < stack.len() implies !string_views(result@).contains(#[trigger] stack[q]) by {
                    assert(stack2[q] == stack[q]);
                }
            }
        }
        i += 1;
    }
    let ghost ip1 = in_progress@;
    in_progress.pop();
    proof {
        lemma_string_views_drop_last(ip1);
    }
    assert(string_views(in_progress@) =~= stack);
    let ghost before = string_views(result@);
    let ghost res0 = result@;
    let nm2 = name.clone();
    result.push(nm2);
    proof {
        lemma_string_views_push(res0, nm2);
        let r2 = string_views(result@);
        assert(r2 == before.push(name@));
        assert(r2.no_duplicates()) by {
            assert forall|a: int, b: int| 0 <= a < r2.len() && 0 <= b < r2.len() && a != b implies r2[a] != r2[b] by {
                if a < before.len() && b < before.len() {} else if a < before.len() { assert(r2[a] == before[a]); } else if b < before.len() { assert(r2[b] == before[b]); }
            }
        }
        assert forall|j: int, b: Seq<char>| 0 <= j < r2.len() && #[trigger] derives_from(t, r2[j], b) implies exists|i: int| 0 <= i < j && #[trigger] r2[i] == b by {
            if j < before.len() {
                assert(r2[j] == before[j]);
                let i = choose|i: int| 0 <= i < j && #[trigger] before[i] == b;
                assert(r2[i] == before[i]);
            } else {
                assert(r2[j] == name@);
                let q = choose|q: int| 0 <= q < template@.1.len() && template@.1[q] == b;
                assert(t.dom().contains(template@.1[q]));
                let w = choose|w: int| 0 <= w < before.len() && before[w] == b;
                assert(r2[w] == before[w]);
            }
        }
        assert(r2.contains(name@)) by {
            assert(r2[before.len() as int] == name@);
        }
        assert(string_views(old(result)@) =~= r2.take(old(result)@.len() as int));
        assert forall|q: int| 0 <= q < stack.len() implies !r2.contains(#[trigger] stack[q]) by {
            if r2.contains(stack[q]) {
                let w = choose|w: int| 0 <= w < r2.len() && r2[w] == stack[q];
                if w < before.len() {
                    assert(before[w] == r2[w]);
                }
            }
        }
    }
    Ok(())
}

/// Orders the derived attributes so that each comes after the derived
/// attributes its template refers to; fails, naming an attribute on a
/// cycle, when the references are circular.
pub fn topological_sort_derived(templates: &AssocMap<String, DerivedTemplate>) -> (r: Result<Vec<String>, RuleError>)
    requires
        templates.wf(),
    ensures
        match r {
            Ok(order) => is_evaluation_order(templates.map(), string_views(order@)),
            Err(e) => e matches RuleError::CircularDependency(n) && on_cycle(templates.map(), n@),
        },
        r is Ok <==> !has_cycle(templates.map()),
{
    let r = topological_sort_derived_order(templates);
    proof {
        match &r {
            Ok(order) => {
                if has_cycle(templates.map()) {
                    let n = choose|n: Seq<char>| on_cycle(templates.map(), n);
                    law_cycle_excludes_order(templates.map(), n, string_views(order@));
                }
            },
            Err(e) => {
                if let RuleError::CircularDependency(n) = e {
                    assert(on_cycle(templates.map(), n@));
                }
            },
        }
    }
    r
}

/// The order of the derived attributes, or an attribute on a cycle.
fn topological_sort_derived_order(templates: &AssocMap<String, DerivedTemplate>) -> (r: Result<Vec<String>, RuleError>)
    requires
        templates.wf(),
    ensures
        match r {
            Ok(order) => is_evaluation_order(templates.map(), string_views(order@)),
            Err(e) => e matches RuleError::CircularDependency(n) && on_cycle(templates.map(), n@),
        },
{
    let ghost t = templates.map();
    proof {
        lemma_to_map_unique(templates.entries@);
    }
    let mut in_progress: Vec<String> = Vec::new();
    let mut result: Vec<String> = Vec::new();
    let n = templates.entries.len();
    let mut i: usize = 0;
    assert(string_views(in_progress@) =~= Seq::<Seq<char>>::empty());
    while i < n
        invariant
            n == templates.entries@.len(),
            templates.wf(),
            t == templates.map(),
            forall|q: int| 0 <= q < templates.entries@.len() ==> #[trigger] t.dom().contains(templates.entries@[q].0@),
            forall|k: Seq<char>| #[trigger] t.dom().contains(k) <==> has_key(templates.entries@, k),
            i <= n,
            string_views(in_progress@) == Seq::<Seq<char>>::empty(),
            partial_order_ok(t, string_views(result@)),
            forall|q: int| 0 <= q < i ==> string_views(result@).contains(#[trigger] templates.entries@[q].0@),
        decreases n - i,
    {
        let name = &templates.entries[i].0;
        let ghost before = string_views(result@);
        match visit(name, templates, &mut in_progress, &mut result, Ghost(Seq::empty())) {
            Ok(()) => {},
            Err(e) => {
                return Err(e);
            },
        }
        proof {
            assert forall|q: int| 0 <= q < i + 1 implies string_views(result@).contains(#[trigger] templates.entries@[q].0@) by {
                if q < i {
                    let w = choose|w: int| 0 <= w < before.len() && before[w] == templates.entries@[q].0@;
                    assert(string_views(result@)[w] == before[w]);
                }
            }
        }
        i += 1;
    }
    proof {
        let o = string_views(result@);
        assert forall|k: Seq<char>| #[trigger] t.dom().contains(k) <==> o.contains(k) by {
            if t.dom().contains(k) {
                let q = choose|q: int| 0 <= q < templates.entries@.len() && #[trigger] templates.entries@[q].0@ == k;
            }
            if o.contains(k) {
                let w = choose|w: int| 0 <= w < o.len() && o[w] == k;
            }
        }
        assert forall|a: int, b: int| 0 <= a < o.len() && 0 <= b < o.len() && #[trigger] derives_from(t, o[b], o[a]) implies a < b by {
            let w = choose|w: int| 0 <= w < b && #[trigger] o[w] == o[a];
            assert(o.no_duplicates());
        }
    }
    Ok(result)
}

/// Law: when some derived attribute depends on itself, no evaluation order
/// exists; with `topological_sort_derived`, the sort succeeds exactly when
/// the references are acyclic.
pub proof fn law_cycle_excludes_order(
    t: Map<Seq<char>, (Seq<char>, Seq<Seq<char>>)>,
    n: Seq<char>,
    order: Seq<Seq<char>>,
)
    requires
        on_cycle(t, n),
    ensures
        !is_evaluation_order(t, order),
{
    if is_evaluation_order(t, order) {
        let p = choose|p: Seq<Seq<char>>| #[trigger] is_dependency_path(t, p) && p.len() >= 2 && p[0] == n && p.last() == n;
        // position of each path element in the order
        assert forall|i: int| 0 <= i < p.len() implies order.contains(#[trigger] p[i]) by {
            if i < p.len() - 1 {
                assert(derives_from(t, p[i], p[i + 1]));
            } else {
                let j = i - 1;
                assert(derives_from(t, p[j], p[j + 1]));
                assert(j + 1 == i);
            }
        }
        lemma_positions_decrease(t, order, p, p.len() - 1);
        let a = choose|a: int| 0 <= a < order.len() && order[a] == p[0];
        let b = choose|b: int| 0 <= b < order.len() && order[b] == p[p.len() - 1];
        assert(p[0] == p[p.len() - 1]);
        assert(order.no_duplicates());
    }
}

proof fn lemma_positions_decrease(t: Map<Seq<char>, (Seq<char>, Seq<Seq<char>>)>, order: Seq<Seq<char>>, p: Seq<Seq<char>>, k: int)
    requires
        is_evaluation_order(t, order),
        is_dependency_path(t, p),
        1 <= k < p.len(),
        forall|i: int| 0 <= i < p.len() ==> order.contains(#[trigger] p[i]),
    ensures
        forall|a: int, b: int| 0 <= a < order.len() && 0 <= b < order.len() && order[a] == p[0] && order[b] == p[k] ==> b < a,
    decreases k,
{
    if k > 1 {
        lemma_positions_decrease(t, order, p, k - 1);
    }
    let j = k - 1;
    assert(derives_from(t, p[j], p[j + 1]));
    assert(j + 1 == k);
    assert forall|a: int, b: int| 0 <= a < order.len() && 0 <= b < order.len() && order[a] == p[0] && order[b] == p[k] implies b < a by {
        let m = choose|m: int| 0 <= m < order.len() && order[m] == p[k - 1];
        assert(derives_from(t, order[m], order[b]));
        if k > 1 {
        } else {
            assert(order.no_duplicates());
        }
    }
}


// ---------------------------------------------------------------------------
// Compiled patterns
// ---------------------------------------------------------------------------

/// What goes wrong when a fiber type is compiled, in terms of the
/// configuration (the error of `RuleError` without its payload's extras).
pub enum RuleIssue {
    Regex(Seq<char>),
    Circular,
    Undefined(Seq<char>, Seq<char>),
    NotExtractable(Seq<char>),
    MatchingNotKey(Seq<char>),
    SelfNotKey(Seq<char>),
    Duplicate(Seq<char>),
}

/// The issue an error reports.
pub open spec fn issue_of(e: RuleError) -> RuleIssue {
    match e {
        RuleError::RegexCompilation { pattern, .. } => RuleIssue::Regex(pattern@),
        RuleError::CircularDependency(_) => RuleIssue::Circular,
        RuleError::UndefinedReference { attr, reference } => RuleIssue::Undefined(attr@, reference@),
        RuleError::KeyNotExtractable { key } => RuleIssue::NotExtractable(key@),
        RuleError::ReleaseMatchingNotKey { key } => RuleIssue::MatchingNotKey(key@),
        RuleError::ReleaseSelfNotKey { key } => RuleIssue::SelfNotKey(key@),
        RuleError::DuplicateAttribute(n) => RuleIssue::Duplicate(n@),
    }
}

/// The names of the named capture groups, in group order.
pub open spec fn named_groups(g: Seq<Option<Seq<char>>>) -> Seq<Seq<char>>
    decreases g.len(),
{
    if g.len() == 0 {
        Seq::empty()
    } else {
        let r = named_groups(g.drop_last());
        match g.last() {
            Some(n) => r.push(n),
            None => r,
        }
    }
}

/// The names of `s` that belong to `set`, in order.
pub open spec fn keep_members(s: Seq<Seq<char>>, set: Seq<Seq<char>>) -> Seq<Seq<char>>
    decreases s.len(),
{
    if s.len() == 0 {
        Seq::empty()
    } else {
        let r = keep_members(s.drop_last(), set);
        if set.contains(s.last()) {
            r.push(s.last())
        } else {
            r
        }
    }
}

/// The first key to release from peers, from position `i` on, that the
/// pattern cannot extract or that is not a key.
pub open spec fn peer_key_issue(peer: Seq<Seq<char>>, groups: Seq<Seq<char>>, keys: Seq<Seq<char>>, i: int) -> Option<RuleIssue>
    decreases peer.len() - i,
{
    if i < 0 || i >= peer.len() {
        None
    } else if !groups.contains(peer[i]) {
        Some(RuleIssue::NotExtractable(peer[i]))
    } else if !keys.contains(peer[i]) {
        Some(RuleIssue::MatchingNotKey(peer[i]))
    } else {
        peer_key_issue(peer, groups, keys, i + 1)
    }
}

/// The first key to release from the fiber itself, from position `i` on,
/// that is not a key.
pub open spec fn self_key_issue(own: Seq<Seq<char>>, keys: Seq<Seq<char>>, i: int) -> Option<RuleIssue>
    decreases own.len() - i,
{
    if i < 0 || i >= own.len() {
        None
    } else if !keys.contains(own[i]) {
        Some(RuleIssue::SelfNotKey(own[i]))
    } else {
        self_key_issue(own, keys, i + 1)
    }
}

/// The named capture groups of a pattern.
pub open spec fn pattern_groups(p: Seq<char>) -> Seq<Seq<char>> {
    named_groups(regex_group_names(p))
}

/// What is wrong with a pattern, given the key attribute names.
pub open spec fn pattern_issue(pc: PatternConfig, keys: Seq<Seq<char>>) -> Option<RuleIssue> {
    if !regex_accepts(pc.regex@) {
        Some(RuleIssue::Regex(pc.regex@))
    } else {
        match peer_key_issue(string_views(pc.release_matching_peer_keys@), pattern_groups(pc.regex@), keys, 0) {
            Some(x) => Some(x),
            None => self_key_issue(string_views(pc.release_self_keys@), keys, 0),
        }
    }
}

/// A pattern ready for matching log lines.
pub struct CompiledPattern {
    /// The compiled expression.
    pub regex: CompiledRegex,
    /// Keys to release from peer fibers before the line is processed.
    pub release_matching_peer_keys: Vec<String>,
    /// Keys to release from the fiber after the line is processed.
    pub release_self_keys: Vec<String>,
    /// Whether the fiber closes after this pattern matches.
    pub close: bool,
    /// The named capture groups that are keys, in group order.
    pub extracted_keys: Vec<String>,
    /// The named capture groups, in group order.
    pub capture_groups: Vec<String>,
}

/// `cp` is `pc` compiled, with `keys` the key attribute names.
pub open spec fn compiled_from(cp: CompiledPattern, pc: PatternConfig, keys: Seq<Seq<char>>) -> bool {
    &&& cp.regex.pattern() == pc.regex@
    &&& string_views(cp.release_matching_peer_keys@) == string_views(pc.release_matching_peer_keys@)
    &&& string_views(cp.release_self_keys@) == string_views(pc.release_self_keys@)
    &&& cp.close == pc.close
    &&& string_views(cp.capture_groups@) == pattern_groups(pc.regex@)
    &&& string_views(cp.extracted_keys@) == keep_members(pattern_groups(pc.regex@), keys)
}

proof fn lemma_peer_step(peer: Seq<Seq<char>>, groups: Seq<Seq<char>>, keys: Seq<Seq<char>>, i: int)
    requires
        0 <= i < peer.len(),
        groups.contains(peer[i]),
        keys.contains(peer[i]),
    ensures
        peer_key_issue(peer, groups, keys, i) == peer_key_issue(peer, groups, keys, i + 1),
{
}

impl CompiledPattern {
    /// Compiles a pattern; `key_names` are the key attribute names.
    pub fn from_config(config: &PatternConfig, key_names: &Vec<String>) -> (r: Result<CompiledPattern, RuleError>)
        ensures
            match r {
                Ok(cp) => pattern_issue(*config, string_views(key_names@)) is None
                    && compiled_from(cp, *config, string_views(key_names@)),
                Err(e) => pattern_issue(*config, string_views(key_names@)) == Some(issue_of(e))
                    && !(e is CircularDependency),
            },
    {
        let ghost keys = string_views(key_names@);
        let regex = match CompiledRegex::compile(config.regex.as_str()) {
            Ok(re) => re,
            Err(e) => {
                return Err(RuleError::RegexCompilation { pattern: config.regex.clone(), source: e.error });
            },
        };
        let names = regex.group_names();
        let ghost gv = opt_views(names@);
        let mut capture_groups: Vec<String> = Vec::new();
        let mut i: usize = 0;
        while i < names.len()
            invariant
                i <= names@.len(),
                gv == opt_views(names@),
                string_views(capture_groups@) == named_groups(gv.take(i as int)),
            decreases names@.len() - i,
        {
            assert(gv.take(i as int + 1).drop_last() =~= gv.take(i as int));
            match &names[i] {
                Some(n) => {
                    let ghost c0 = capture_groups@;
                    let c = n.clone();
                    capture_groups.push(c);
                    proof {
                        lemma_string_views_push(c0, c);
                    }
                },
                None => {},
            }
            i += 1;
        }
        assert(gv.take(names@.len() as int) =~= gv);
        let ghost groups = string_views(capture_groups@);
        assert(groups == pattern_groups(config.regex@));
        let mut extracted_keys: Vec<String> = Vec::new();
        let mut j: usize = 0;
        while j < capture_groups.len()
            invariant
                j <= capture_groups@.len(),
                groups == string_views(capture_groups@),
                keys == string_views(key_names@),
                string_views(extracted_keys@) == keep_members(groups.take(j as int), keys),
            decreases capture_groups@.len() - j,
        {
            assert(groups.take(j as int + 1).drop_last() =~= groups.take(j as int));
            if contains_string(key_names, &capture_groups[j]) {
                let ghost e0 = extracted_keys@;
                let c = capture_groups[j].clone();
                extracted_keys.push(c);
                proof {
                    lemma_string_views_push(e0, c);
                }
            }
            j += 1;
        }
        assert(groups.take(capture_groups@.len() as int) =~= groups);
        let ghost peer = string_views(config.release_matching_peer_keys@);
        let mut k: usize = 0;
        while k < config.release_matching_peer_keys.len()
            invariant
                k <= peer.len(),
                peer == string_views(config.release_matching_peer_keys@),
                groups == string_views(capture_groups@),
                keys == string_views(key_names@),
                peer_key_issue(peer, groups, keys, 0) == peer_key_issue(peer, groups, keys, k as int),
                regex_accepts(config.regex@),
                groups == pattern_groups(config.regex@),
            decreases peer.len() - k,
        {
            let key = &config.release_matching_peer_keys[k];
            assert(peer[k as int] == key@);
            if !contains_string(&capture_groups, key) {
                return Err(RuleError::KeyNotExtractable { key: key.clone() });
            }
            if !contains_string(key_names, key) {
                return Err(RuleError::ReleaseMatchingNotKey { key: key.clone() });
            }
            proof {
                lemma_peer_step(peer, groups, keys, k as int);
            }
            k += 1;
        }
        let ghost own = string_views(config.release_self_keys@);
        let mut m: usize = 0;
        while m < config.release_self_keys.len()
            invariant
                m <= own.len(),
                own == string_views(config.release_self_keys@),
                keys == string_views(key_names@),
                self_key_issue(own, keys, 0) == self_key_issue(own, keys, m as int),
                regex_accepts(config.regex@),
                peer == string_views(config.release_matching_peer_keys@),
                groups == pattern_groups(config.regex@),
                peer_key_issue(peer, groups, keys, 0) is None,
            decreases own.len() - m,
        {
            let key = &config.release_self_keys[m];
            assert(own[m as int] == key@);
            if !contains_string(key_names, key) {
                return Err(RuleError::ReleaseSelfNotKey { key: key.clone() });
            }
            m += 1;
        }
        Ok(CompiledPattern {
            regex,
            release_matching_peer_keys: clone_strings(&config.release_matching_peer_keys),
            release_self_keys: clone_strings(&config.release_self_keys),
            close: config.close,
            extracted_keys,
            capture_groups,
        })
    }
}


// ---------------------------------------------------------------------------
// Compiled fiber types
// ---------------------------------------------------------------------------

/// Time limits of a compiled fiber type.
pub struct TemporalConfig {
    /// The longest allowed gap between logs; `None` means no limit.
    pub max_gap: Option<Nanos>,
    /// Whether gaps are measured from the latest or the first log.
    pub gap_mode: GapMode,
}

/// An attribute of a compiled fiber type.
pub struct AttributeDef {
    pub name: String,
    pub attr_type: AttributeType,
    pub key: bool,
    pub derived: Option<String>,
}

pub open spec fn opt_string_view(o: Option<String>) -> Option<Seq<char>> {
    match o {
        Some(s) => Some(s@),
        None => None,
    }
}

/// The attribute definition carries the configured attribute.
pub open spec fn def_matches(d: AttributeDef, a: AttributeConfig) -> bool {
    &&& d.name@ == a.name@
    &&& d.attr_type == a.attr_type
    &&& d.key == a.key
    &&& opt_string_view(d.derived) == opt_string_view(a.derived)
}

/// The names of the configured attributes, in order.
pub open spec fn attr_names(a: Seq<AttributeConfig>) -> Seq<Seq<char>> {
    a.map_values(|x: AttributeConfig| x.name@)
}

/// The names of the key attributes, in order.
pub open spec fn key_attr_names(a: Seq<AttributeConfig>) -> Seq<Seq<char>>
    decreases a.len(),
{
    if a.len() == 0 {
        Seq::empty()
    } else {
        let r = key_attr_names(a.drop_last());
        if a.last().key {
            r.push(a.last().name@)
        } else {
            r
        }
    }
}

/// The first name, from position `j` on, that also occurs before it.
pub open spec fn first_repeat(names: Seq<Seq<char>>, j: int) -> Option<Seq<char>>
    decreases names.len() - j,
{
    if j < 0 || j >= names.len() {
        None
    } else if names.take(j).contains(names[j]) {
        Some(names[j])
    } else {
        first_repeat(names, j + 1)
    }
}

/// The first dependency, from position `k` on, that is not an attribute name.
pub open spec fn first_missing(deps: Seq<Seq<char>>, names: Seq<Seq<char>>, k: int) -> Option<Seq<char>>
    decreases deps.len() - k,
{
    if k < 0 || k >= deps.len() {
        None
    } else if !names.contains(deps[k]) {
        Some(deps[k])
    } else {
        first_missing(deps, names, k + 1)
    }
}

/// The first derived attribute, from position `i` on, whose template refers
/// to a name that is not an attribute, with that name.
pub open spec fn first_undefined(a: Seq<AttributeConfig>, names: Seq<Seq<char>>, i: int) -> Option<(Seq<char>, Seq<char>)>
    decreases a.len() - i,
{
    if i < 0 || i >= a.len() {
        None
    } else {
        match a[i].derived {
            Some(t) => match first_missing(template_dependencies(t@), names, 0) {
                Some(d) => Some((a[i].name@, d)),
                None => first_undefined(a, names, i + 1),
            },
            None => first_undefined(a, names, i + 1),
        }
    }
}

/// The templates of the derived attributes, by attribute name.
pub open spec fn derived_map(a: Seq<AttributeConfig>) -> Map<Seq<char>, (Seq<char>, Seq<Seq<char>>)>
    decreases a.len(),
{
    if a.len() == 0 {
        Map::empty()
    } else {
        let r = derived_map(a.drop_last());
        match a.last().derived {
            Some(t) => r.insert(a.last().name@, (t@, template_dependencies(t@))),
            None => r,
        }
    }
}

/// Some derived attribute depends on itself.
pub open spec fn has_cycle(t: Map<Seq<char>, (Seq<char>, Seq<Seq<char>>)>) -> bool {
    exists|n: Seq<char>| on_cycle(t, n)
}

/// The first faulty pattern of a source, from position `p` on.
pub open spec fn source_issue(pcs: Seq<PatternConfig>, keys: Seq<Seq<char>>, p: int) -> Option<RuleIssue>
    decreases pcs.len() - p,
{
    if p < 0 || p >= pcs.len() {
        None
    } else {
        match pattern_issue(pcs[p], keys) {
            Some(x) => Some(x),
            None => source_issue(pcs, keys, p + 1),
        }
    }
}

/// The first faulty pattern, source by source from position `s` on.
pub open spec fn sources_issue(srcs: Seq<(String, FiberSourceConfig)>, keys: Seq<Seq<char>>, s: int) -> Option<RuleIssue>
    decreases srcs.len() - s,
{
    if s < 0 || s >= srcs.len() {
        None
    } else {
        match source_issue(srcs[s].1.patterns@, keys, 0) {
            Some(x) => Some(x),
            None => sources_issue(srcs, keys, s + 1),
        }
    }
}

/// What is wrong with a fiber type, checked in this order: a repeated
/// attribute name, a template that refers to no attribute, circular
/// templates, then the patterns source by source.
pub open spec fn fiber_type_issue(config: FiberTypeConfig) -> Option<RuleIssue> {
    let a = config.attributes@;
    let names = attr_names(a);
    match first_repeat(names, 0) {
        Some(n) => Some(RuleIssue::Duplicate(n)),
        None => match first_undefined(a, names, 0) {
            Some((x, d)) => Some(RuleIssue::Undefined(x, d)),
            None => if has_cycle(derived_map(a)) {
                Some(RuleIssue::Circular)
            } else {
                sources_issue(config.sources@, key_attr_names(a), 0)
            },
        },
    }
}

/// The patterns of the last source entry with the id.
pub open spec fn last_source_patterns(srcs: Seq<(String, FiberSourceConfig)>, id: Seq<char>) -> Seq<PatternConfig>
    decreases srcs.len(),
{
    if srcs.len() == 0 {
        Seq::empty()
    } else if srcs.last().0@ == id {
        srcs.last().1.patterns@
    } else {
        last_source_patterns(srcs.drop_last(), id)
    }
}

/// Each compiled pattern is the configured pattern at its position, compiled.
pub open spec fn patterns_compiled(cps: Seq<CompiledPattern>, pcs: Seq<PatternConfig>, keys: Seq<Seq<char>>) -> bool {
    cps.len() == pcs.len() && forall|i: int| 0 <= i < cps.len() ==> #[trigger] compiled_from(cps[i], pcs[i], keys)
}

/// The map holds, for each configured source id, its compiled patterns.
pub open spec fn sources_compiled(m: Map<Seq<char>, Seq<CompiledPattern>>, srcs: Seq<(String, FiberSourceConfig)>, keys: Seq<Seq<char>>) -> bool {
    &&& forall|id: Seq<char>| #[trigger] m.dom().contains(id) <==> has_key(srcs, id)
    &&& forall|id: Seq<char>| #[trigger] m.dom().contains(id) ==> patterns_compiled(m[id], last_source_patterns(srcs, id), keys)
}

/// A fiber type ready for processing.
pub struct CompiledFiberType {
    pub name: String,
    pub temporal: TemporalConfig,
    /// The attribute definitions, in configured order.
    pub attributes: Vec<AttributeDef>,
    /// The names of the key attributes, in configured order.
    pub key_names: Vec<String>,
    /// The derived attributes, each after those its template refers to.
    pub derived_order: Vec<String>,
    /// The template of each derived attribute.
    pub derived_templates: AssocMap<String, DerivedTemplate>,
    /// The compiled patterns of each source.
    pub source_patterns: AssocMap<String, Vec<CompiledPattern>>,
}

/// The fiber type is the configuration compiled under the name.
pub open spec fn fiber_type_compiled(ft: CompiledFiberType, name: Seq<char>, config: FiberTypeConfig) -> bool {
    let a = config.attributes@;
    &&& ft.name@ == name
    &&& ft.temporal.max_gap == config.temporal.max_gap
    &&& ft.temporal.gap_mode == config.temporal.gap_mode
    &&& ft.attributes@.len() == a.len()
    &&& forall|i: int| 0 <= i < a.len() ==> #[trigger] def_matches(ft.attributes@[i], a[i])
    &&& string_views(ft.key_names@) == key_attr_names(a)
    &&& ft.derived_templates.wf()
    &&& ft.derived_templates.map() == derived_map(a)
    &&& is_evaluation_order(derived_map(a), string_views(ft.derived_order@))
    &&& ft.source_patterns.wf()
    &&& sources_compiled(ft.source_patterns.map(), config.sources@, key_attr_names(a))
}

fn clone_opt_string(o: &Option<String>) -> (r: Option<String>)
    ensures
        opt_string_view(r) == opt_string_view(*o),
{
    match o {
        Some(s) => Some(s.clone()),
        None => None,
    }
}


/// The type of the first attribute, from position `i` on, with the name.
pub open spec fn attr_type_of(defs: Seq<AttributeDef>, name: Seq<char>, i: int) -> Option<AttributeType>
    decreases defs.len() - i,
{
    if i < 0 || i >= defs.len() {
        None
    } else if defs[i].name@ == name {
        Some(defs[i].attr_type)
    } else {
        attr_type_of(defs, name, i + 1)
    }
}

/// The attribute names, failing on the first one that repeats an earlier one.
fn collect_names(attrs: &Vec<AttributeConfig>) -> (r: Result<Vec<String>, RuleError>)
    ensures
        match r {
            Ok(names) => first_repeat(attr_names(attrs@), 0) is None && string_views(names@) == attr_names(attrs@),
            Err(e) => first_repeat(attr_names(attrs@), 0) matches Some(n) && issue_of(e) == RuleIssue::Duplicate(n),
        },
{
    let ghost all = attr_names(attrs@);
    let mut names: Vec<String> = Vec::new();
    let mut i: usize = 0;
    while i < attrs.len()
        invariant
            i <= attrs@.len(),
            all == attr_names(attrs@),
            string_views(names@) == all.take(i as int),
            first_repeat(all, 0) == first_repeat(all, i as int),
        decreases attrs@.len() - i,
    {
        let n = &attrs[i].name;
        assert(all[i as int] == n@);
        if contains_string(&names, n) {
            return Err(RuleError::DuplicateAttribute(n.clone()));
        }
        let ghost n0 = names@;
        let c = n.clone();
        names.push(c);
        proof {
            lemma_string_views_push(n0, c);
        }
        assert(string_views(names@) =~= all.take(i as int + 1));
        i += 1;
    }
    assert(all.take(attrs@.len() as int) =~= all);
    Ok(names)
}

/// The names of the key attributes, in order.
fn collect_key_names(attrs: &Vec<AttributeConfig>) -> (r: Vec<String>)
    ensures
        string_views(r@) == key_attr_names(attrs@),
{
    let mut keys: Vec<String> = Vec::new();
    let mut i: usize = 0;
    while i < attrs.len()
        invariant
            i <= attrs@.len(),
            string_views(keys@) == key_attr_names(attrs@.take(i as int)),
        decreases attrs@.len() - i,
    {
        assert(attrs@.take(i as int + 1).drop_last() =~= attrs@.take(i as int));
        if attrs[i].key {
            let ghost k0 = keys@;
            let c = attrs[i].name.clone();
            keys.push(c);
            proof {
                lemma_string_views_push(k0, c);
            }
        }
        i += 1;
    }
    assert(attrs@.take(attrs@.len() as int) =~= attrs@);
    keys
}

/// One definition per configured attribute.
fn build_defs(attrs: &Vec<AttributeConfig>) -> (r: Vec<AttributeDef>)
    ensures
        r@.len() == attrs@.len(),
        forall|i: int| 0 <= i < attrs@.len() ==> #[trigger] def_matches(r@[i], attrs@[i]),
{
    let mut defs: Vec<AttributeDef> = Vec::new();
    let mut i: usize = 0;
    while i < attrs.len()
        invariant
            i <= attrs@.len(),
            defs@.len() == i,
            forall|j: int| 0 <= j < i ==> #[trigger] def_matches(defs@[j], attrs@[j]),
        decreases attrs@.len() - i,
    {
        let a = &attrs[i];
        defs.push(AttributeDef {
            name: a.name.clone(),
            attr_type: a.attr_type,
            key: a.key,
            derived: clone_opt_string(&a.derived),
        });
        i += 1;
    }
    defs
}

/// The templates of the derived attributes, failing on the first template
/// that refers to a name that is not an attribute.
fn build_templates(attrs: &Vec<AttributeConfig>, names: &Vec<String>) -> (r: Result<AssocMap<String, DerivedTemplate>, RuleError>)
    ensures
        match r {
            Ok(m) => first_undefined(attrs@, string_views(names@), 0) is None && m.wf() && m.map() == derived_map(attrs@),
            Err(e) => first_undefined(attrs@, string_views(names@), 0) matches Some((x, d)) && issue_of(e) == RuleIssue::Undefined(x, d),
        },
{
    let ghost nv = string_views(names@);
    let mut templates: AssocMap<String, DerivedTemplate> = AssocMap::new();
    let mut i: usize = 0;
    while i < attrs.len()
        invariant
            i <= attrs@.len(),
            nv == string_views(names@),
            templates.wf(),
            templates.map() == derived_map(attrs@.take(i as int)),
            first_undefined(attrs@, nv, 0) == first_undefined(attrs@, nv, i as int),
        decreases attrs@.len() - i,
    {
        assert(attrs@.take(i as int + 1).drop_last() =~= attrs@.take(i as int));
        let a = &attrs[i];
        match &a.derived {
            Some(t) => {
                let dt = DerivedTemplate::from_template(t.as_str());
                let ghost deps = dt@.1;
                let mut k: usize = 0;
                while k < dt.dependencies.len()
                    invariant
                        k <= dt.dependencies@.len(),
                        deps == string_views(dt.dependencies@),
                        nv == string_views(names@),
                        first_missing(deps, nv, 0) == first_missing(deps, nv, k as int),
                        i < attrs@.len(),
                        *a == attrs@[i as int],
                        a.derived == Some(*t),
                        deps == template_dependencies(t@),
                        first_undefined(attrs@, nv, 0) == first_undefined(attrs@, nv, i as int),
                    decreases dt.dependencies@.len() - k,
                {
                    let dep = &dt.dependencies[k];
                    assert(deps[k as int] == dep@);
                    if !contains_string(names, dep) {
                        return Err(RuleError::UndefinedReference { attr: a.name.clone(), reference: dep.clone() });
                    }
                    k += 1;
                }
                templates.insert(a.name.clone(), dt);
            },
            None => {},
        }
        i += 1;
    }
    assert(attrs@.take(attrs@.len() as int) =~= attrs@);
    Ok(templates)
}

/// Compiles the patterns source by source, failing on the first faulty one.
fn compile_sources(srcs: &Vec<(String, FiberSourceConfig)>, key_names: &Vec<String>) -> (r: Result<AssocMap<String, Vec<CompiledPattern>>, RuleError>)
    ensures
        match r {
            Ok(m) => sources_issue(srcs@, string_views(key_names@), 0) is None && m.wf()
                && sources_compiled(m.map(), srcs@, string_views(key_names@)),
            Err(e) => sources_issue(srcs@, string_views(key_names@), 0) == Some(issue_of(e))
                && !(e is CircularDependency),
        },
{
    let ghost keys = string_views(key_names@);
    let mut out: AssocMap<String, Vec<CompiledPattern>> = AssocMap::new();
    let mut s: usize = 0;
    while s < srcs.len()
        invariant
            s <= srcs@.len(),
            keys == string_views(key_names@),
            out.wf(),
            sources_compiled(out.map(), srcs@.take(s as int), keys),
            sources_issue(srcs@, keys, 0) == sources_issue(srcs@, keys, s as int),
        decreases srcs@.len() - s,
    {
        let pcs = &srcs[s].1.patterns;
        let mut cps: Vec<CompiledPattern> = Vec::new();
        let mut p: usize = 0;
        while p < pcs.len()
            invariant
                p <= pcs@.len(),
                *pcs == srcs@[s as int].1.patterns,
                keys == string_views(key_names@),
                cps@.len() == p,
                forall|q: int| 0 <= q < p ==> #[trigger] compiled_from(cps@[q], pcs@[q], keys),
                source_issue(pcs@, keys, 0) == source_issue(pcs@, keys, p as int),
                s < srcs@.len(),
                sources_issue(srcs@, keys, 0) == sources_issue(srcs@, keys, s as int),
            decreases pcs@.len() - p,
        {
            match CompiledPattern::from_config(&pcs[p], key_names) {
                Ok(cp) => {
                    cps.push(cp);
                },
                Err(e) => {
                    return Err(e);
                },
            }
            p += 1;
        }
        let ghost before = out.map();
        let ghost id = srcs@[s as int].0@;
        let ghost pre = srcs@.take(s as int);
        let ghost post = srcs@.take(s as int + 1);
        assert(post.drop_last() =~= pre);
        assert(patterns_compiled(cps@, pcs@, keys));
        out.insert(srcs[s].0.clone(), cps);
        proof {
            assert forall|k: Seq<char>| #[trigger] out.map().dom().contains(k) <==> has_key(post, k) by {
                if has_key(post, k) && k != id {
                    let w = choose|w: int| 0 <= w < post.len() && #[trigger] post[w].0@ == k;
                    assert(pre[w] == post[w]);
                }
                if has_key(pre, k) {
                    let w = choose|w: int| 0 <= w < pre.len() && #[trigger] pre[w].0@ == k;
                    assert(pre[w] == post[w]);
                }
                if k == id {
                    assert(post[s as int].0@ == k);
                }
            }
            assert forall|k: Seq<char>| #[trigger] out.map().dom().contains(k) implies patterns_compiled(out.map()[k], last_source_patterns(post, k), keys) by {
                if k != id {
                    assert(last_source_patterns(post, k) == last_source_patterns(pre, k));
                }
            }
        }
        s += 1;
    }
    assert(srcs@.take(srcs@.len() as int) =~= srcs@);
    Ok(out)
}

impl CompiledFiberType {
    /// Compiles a fiber type from its configuration.
    pub fn from_config(name: &str, config: &FiberTypeConfig) -> (r: Result<CompiledFiberType, RuleError>)
        ensures
            match r {
                Ok(ft) => fiber_type_issue(*config) is None && fiber_type_compiled(ft, name@, *config),
                Err(e) => fiber_type_issue(*config) == Some(issue_of(e))
                    && (e matches RuleError::CircularDependency(n) ==> on_cycle(derived_map(config.attributes@), n@)),
            },
    {
        let names = match collect_names(&config.attributes) {
            Ok(n) => n,
            Err(e) => {
                return Err(e);
            },
        };
        let key_names = collect_key_names(&config.attributes);
        let attributes = build_defs(&config.attributes);
        let derived_templates = match build_templates(&config.attributes, &names) {
            Ok(m) => m,
            Err(e) => {
                return Err(e);
            },
        };
        let derived_order = match topological_sort_derived(&derived_templates) {
            Ok(o) => o,
            Err(e) => {
                proof {
                    if let RuleError::CircularDependency(ref n) = e {
                        assert(on_cycle(derived_map(config.attributes@), n@));
                    }
                }
                return Err(e);
            },
        };
        proof {
            if has_cycle(derived_map(config.attributes@)) {
                let n = choose|n: Seq<char>| on_cycle(derived_map(config.attributes@), n);
                law_cycle_excludes_order(derived_map(config.attributes@), n, string_views(derived_order@));
            }
        }
        let source_patterns = match compile_sources(&config.sources, &key_names) {
            Ok(m) => m,
            Err(e) => {
                return Err(e);
            },
        };
        Ok(CompiledFiberType {
            name: name.to_string(),
            temporal: TemporalConfig { max_gap: config.temporal.max_gap, gap_mode: config.temporal.gap_mode },
            attributes,
            key_names,
            derived_order,
            derived_templates,
            source_patterns,
        })
    }

    /// The type of the first attribute with the name.
    pub fn get_attribute_type(&self, name: &str) -> (r: Option<AttributeType>)
        ensures
            r == attr_type_of(self.attributes@, name@, 0),
    {
        let target = name.to_string();
        let mut i: usize = 0;
        while i < self.attributes.len()
            invariant
                i <= self.attributes@.len(),
                target@ == name@,
                attr_type_of(self.attributes@, name@, 0) == attr_type_of(self.attributes@, name@, i as int),
            decreases self.attributes@.len() - i,
        {
            if self.attributes[i].name == target {
                return Some(self.attributes[i].attr_type);
            }
            i += 1;
        }
        None
    }
}

} // verus!

use vstd::prelude::*;
use crate::assoc::has_key;
use crate::config::parse::ConfigError;
use crate::config::types::{AttributeConfig, Config, FiberSourceConfig, FiberTypeConfig, PatternConfig, SourceConfig};
use crate::fiber::rule::{attr_names, named_groups};
use crate::matcher::{CompiledRegex, opt_views, regex_accepts, regex_captures_all, regex_error_message, regex_group_names};
use crate::text::{str_eq, append_str, chars_of, decimal_chars, join_chars, join_with, spec_decimal, string_from_chars, string_views, views};

verus! {

// ---------------------------------------------------------------------------
// Variable references in templates
// ---------------------------------------------------------------------------

/// The pattern of a `${name}` reference in a derived attribute's template.
pub open spec fn var_ref_pattern() -> Seq<char> {
    "\\$\\{([a-zA-Z_][a-zA-Z0-9_]*)\\}"@
}

/// The text of the first capture group of each match that has it.
pub open spec fn first_groups(ms: Seq<Seq<Option<Seq<char>>>>) -> Seq<Seq<char>>
    decreases ms.len(),
{
    if ms.len() == 0 {
        Seq::empty()
    } else {
        let r = first_groups(ms.drop_last());
        let m = ms.last();
        if m.len() > 1 {
            match m[1] {
                Some(v) => r.push(v),
                None => r,
            }
        } else {
            r
        }
    }
}

/// The names a template refers to as `${name}`, in order, repeats kept.
pub open spec fn var_refs(t: Seq<char>) -> Seq<Seq<char>> {
    if regex_accepts(var_ref_pattern()) {
        first_groups(regex_captures_all(var_ref_pattern(), t))
    } else {
        Seq::empty()
    }
}

/// The names a template refers to as `${name}`, in order of appearance.
pub fn extract_variable_references(template: &str) -> (r: Vec<String>)
    ensures
        string_views(r@) == var_refs(template@),
{
    let re = match CompiledRegex::compile("\\$\\{([a-zA-Z_][a-zA-Z0-9_]*)\\}") {
        Ok(re) => re,
        Err(_) => {
            let empty: Vec<String> = Vec::new();
            assert(string_views(empty@) =~= Seq::<Seq<char>>::empty());
            return empty;
        },
    };
    let all = re.captures_all(template);
    let ghost ms = all@.map_values(|v: Vec<Option<String>>| opt_views(v@));
    let mut out: Vec<String> = Vec::new();
    let mut i: usize = 0;
    while i < all.len()
        invariant
            i <= all@.len(),
            ms == all@.map_values(|v: Vec<Option<String>>| opt_views(v@)),
            string_views(out@) == first_groups(ms.take(i as int)),
        decreases all@.len() - i,
    {
        assert(ms.take(i as int + 1).drop_last() =~= ms.take(i as int));
        let m = &all[i];
        assert(ms.take(i as int + 1).last() == opt_views(m@));
        if m.len() > 1 {
            match &m[1] {
                Some(v) => {
                    let ghost prev = out@;
                    out.push(v.clone());
                    assert(string_views(out@) =~= string_views(prev).push(v@));
                },
                None => {},
            }
        }
        i += 1;
    }
    assert(ms.take(all@.len() as int) =~= ms);
    out
}

// ---------------------------------------------------------------------------
// Ordering derived attributes
// ---------------------------------------------------------------------------

/// The names an attribute's template refers to (none when not derived).
pub open spec fn attr_refs(a: AttributeConfig) -> Seq<Seq<char>> {
    match a.derived {
        Some(t) => var_refs(t@),
        None => Seq::empty(),
    }
}

/// Every attribute named `y` refers only to placed names among the
/// attribute names: `y` may be placed next.
pub open spec fn ready(attrs: Seq<AttributeConfig>, placed: Seq<Seq<char>>, y: Seq<char>) -> bool {
    forall|j: int, q: int|
        0 <= j < attrs.len() && attrs[j].name@ == y && 0 <= q < attr_refs(attrs[j]).len()
            && attr_names(attrs).contains(attr_refs(attrs[j])[q])
            ==> placed.contains(#[trigger] attr_refs(attrs[j])[q])
}

/// Each name of the order is an attribute name, placed once, after every
/// attribute name it refers to.
pub open spec fn placeable(attrs: Seq<AttributeConfig>, o: Seq<Seq<char>>) -> bool {
    &&& o.no_duplicates()
    &&& forall|k: int| 0 <= k < o.len() ==> attr_names(attrs).contains(#[trigger] o[k])
    &&& forall|k: int| 0 <= k < o.len() ==> ready(attrs, o.take(k), #[trigger] o[k])
}

/// No attribute name outside the order may be placed next.
pub open spec fn stuck(attrs: Seq<AttributeConfig>, o: Seq<Seq<char>>) -> bool {
    forall|i: int| 0 <= i < attrs.len() && !o.contains(#[trigger] attrs[i].name@) ==> !ready(attrs, o, attrs[i].name@)
}

/// An order that places attribute names for as long as one can be placed.
pub open spec fn settled_order(attrs: Seq<AttributeConfig>) -> Seq<Seq<char>> {
    choose|o: Seq<Seq<char>>| placeable(attrs, o) && stuck(attrs, o)
}

/// The attribute names, each once in order of first appearance, that are
/// not in `o`.
pub open spec fn unplaced(attrs: Seq<AttributeConfig>, o: Seq<Seq<char>>) -> Seq<Seq<char>>
    decreases attrs.len(),
{
    if attrs.len() == 0 {
        Seq::empty()
    } else {
        let r = unplaced(attrs.drop_last(), o);
        let n = attrs.last().name@;
        if o.contains(n) || attr_names(attrs.drop_last()).contains(n) {
            r
        } else {
            r.push(n)
        }
    }
}

/// The attributes can be ordered: every attribute gets placed.
pub open spec fn attributes_orderable(attrs: Seq<AttributeConfig>) -> bool {
    settled_order(attrs).len() == attrs.len()
}

/// The message naming the attributes that cannot be placed.
pub open spec fn cycle_text(attrs: Seq<AttributeConfig>) -> Seq<char> {
    "cycle involving: "@ + join_with(unplaced(attrs, settled_order(attrs)), ", "@)
}

proof fn lemma_nodup_subset_len<A>(s: Seq<A>, t: Seq<A>)
    requires
        s.no_duplicates(),
        forall|i: int| 0 <= i < s.len() ==> t.contains(#[trigger] s[i]),
    ensures
        s.len() <= t.len(),
{
    s.unique_seq_to_set();
    t.lemma_cardinality_of_set();
    assert(s.to_set().subset_of(t.to_set())) by {
        assert forall|x: A| s.to_set().contains(x) implies t.to_set().contains(x) by {
            let i = choose|i: int| 0 <= i < s.len() && s[i] == x;
            assert(t.contains(s[i]));
        }
    }
    vstd::set_lib::lemma_len_subset(s.to_set(), t.to_set());
}

proof fn lemma_ready_grows(attrs: Seq<AttributeConfig>, p1: Seq<Seq<char>>, p2: Seq<Seq<char>>, y: Seq<char>)
    requires
        ready(attrs, p1, y),
        forall|x: Seq<char>| p1.contains(x) ==> p2.contains(x),
    ensures
        ready(attrs, p2, y),
{
    assert forall|j: int, q: int|
        0 <= j < attrs.len() && attrs[j].name@ == y && 0 <= q < attr_refs(attrs[j]).len()
            && attr_names(attrs).contains(attr_refs(attrs[j])[q])
        implies p2.contains(#[trigger] attr_refs(attrs[j])[q]) by {
        assert(p1.contains(attr_refs(attrs[j])[q]));
    }
}

/// Every name of a placeable order is in every stuck placeable order.
proof fn lemma_placed_in_settled(attrs: Seq<AttributeConfig>, o1: Seq<Seq<char>>, o2: Seq<Seq<char>>, k: int)
    requires
        placeable(attrs, o1),
        stuck(attrs, o2),
        0 <= k <= o1.len(),
    ensures
        forall|m: int| 0 <= m < k ==> o2.contains(#[trigger] o1[m]),
    decreases k,
{
    if k > 0 {
        lemma_placed_in_settled(attrs, o1, o2, k - 1);
        let y = o1[k - 1];
        assert(ready(attrs, o1.take(k - 1), y));
        assert forall|x: Seq<char>| o1.take(k - 1).contains(x) implies o2.contains(x) by {
            let m = choose|m: int| 0 <= m < k - 1 && #[trigger] o1.take(k - 1)[m] == x;
            assert(o1[m] == x);
        }
        lemma_ready_grows(attrs, o1.take(k - 1), o2, y);
        if !o2.contains(y) {
            assert(attr_names(attrs).contains(y));
            let i = choose|i: int| 0 <= i < attr_names(attrs).len() && attr_names(attrs)[i] == y;
            assert(attrs[i].name@ == y);
            assert(!ready(attrs, o2, attrs[i].name@));
        }
    }
}

proof fn lemma_unplaced_same(attrs: Seq<AttributeConfig>, o1: Seq<Seq<char>>, o2: Seq<Seq<char>>)
    requires
        forall|x: Seq<char>| o1.contains(x) <==> o2.contains(x),
    ensures
        unplaced(attrs, o1) == unplaced(attrs, o2),
    decreases attrs.len(),
{
    if attrs.len() > 0 {
        lemma_unplaced_same(attrs.drop_last(), o1, o2);
    }
}

/// Two stuck placeable orders place the same names, as many of them.
proof fn lemma_settled_unique(attrs: Seq<AttributeConfig>, o1: Seq<Seq<char>>, o2: Seq<Seq<char>>)
    requires
        placeable(attrs, o1),
        stuck(attrs, o1),
        placeable(attrs, o2),
        stuck(attrs, o2),
    ensures
        forall|x: Seq<char>| o1.contains(x) <==> o2.contains(x),
        o1.len() == o2.len(),
        unplaced(attrs, o1) == unplaced(attrs, o2),
{
    lemma_placed_in_settled(attrs, o1, o2, o1.len() as int);
    lemma_placed_in_settled(attrs, o2, o1, o2.len() as int);
    assert forall|x: Seq<char>| o1.contains(x) <==> o2.contains(x) by {
        if o1.contains(x) {
            let m = choose|m: int| 0 <= m < o1.len() && o1[m] == x;
            assert(o2.contains(o1[m]));
        }
        if o2.contains(x) {
            let m = choose|m: int| 0 <= m < o2.len() && o2[m] == x;
            assert(o1.contains(o2[m]));
        }
    }
    lemma_nodup_subset_len(o1, o2);
    lemma_nodup_subset_len(o2, o1);
    lemma_unplaced_same(attrs, o1, o2);
}

fn contains_str(v: &Vec<String>, s: &String) -> (b: bool)
    ensures
        b == string_views(v@).contains(s@),
{
    let mut i: usize = 0;
    while i < v.len()
        invariant
            i <= v@.len(),
            forall|k: int| 0 <= k < i ==> string_views(v@)[k] != s@,
        decreases v@.len() - i,
    {
        if v[i] == *s {
            assert(string_views(v@)[i as int] == s@);
            return true;
        }
        i += 1;
    }
    false
}

fn prefix_contains(v: &Vec<String>, n: usize, s: &String) -> (b: bool)
    requires
        n <= v@.len(),
    ensures
        b == string_views(v@).take(n as int).contains(s@),
{
    let mut i: usize = 0;
    while i < n
        invariant
            i <= n <= v@.len(),
            forall|k: int| 0 <= k < i ==> string_views(v@)[k] != s@,
        decreases n - i,
    {
        if v[i] == *s {
            assert(string_views(v@).take(n as int)[i as int] == s@);
            return true;
        }
        i += 1;
    }
    false
}

fn collect_attr_names(attrs: &Vec<AttributeConfig>) -> (names: Vec<String>)
    ensures
        string_views(names@) == attr_names(attrs@),
{
    let mut names: Vec<String> = Vec::new();
    let mut i: usize = 0;
    while i < attrs.len()
        invariant
            i <= attrs@.len(),
            string_views(names@) == attr_names(attrs@).take(i as int),
        decreases attrs@.len() - i,
    {
        let ghost prev = names@;
        names.push(attrs[i].name.clone());
        assert(string_views(names@) =~= string_views(prev).push(attrs@[i as int].name@));
        assert(attr_names(attrs@).take(i as int + 1) =~= attr_names(attrs@).take(i as int).push(attrs@[i as int].name@));
        i += 1;
    }
    assert(attr_names(attrs@).take(attrs@.len() as int) =~= attr_names(attrs@));
    names
}

fn collect_refs(attrs: &Vec<AttributeConfig>) -> (refs: Vec<Vec<String>>)
    ensures
        refs@.len() == attrs@.len(),
        forall|j: int| 0 <= j < attrs@.len() ==> string_views(#[trigger] refs@[j]@) == attr_refs(attrs@[j]),
{
    let mut refs: Vec<Vec<String>> = Vec::new();
    let mut i: usize = 0;
    while i < attrs.len()
        invariant
            i <= attrs@.len(),
            refs@.len() == i,
            forall|j: int| 0 <= j < i ==> string_views(#[trigger] refs@[j]@) == attr_refs(attrs@[j]),
        decreases attrs@.len() - i,
    {
        let r = match &attrs[i].derived {
            Some(t) => extract_variable_references(t.as_str()),
            None => {
                let empty: Vec<String> = Vec::new();
                assert(string_views(empty@) =~= Seq::<Seq<char>>::empty());
                empty
            },
        };
        refs.push(r);
        i += 1;
    }
    refs
}

fn refs_placed(r: &Vec<String>, names: &Vec<String>, order: &Vec<String>) -> (b: bool)
    ensures
        b == (forall|q: int| 0 <= q < r@.len() && string_views(names@).contains(string_views(r@)[q])
            ==> string_views(order@).contains(#[trigger] string_views(r@)[q])),
{
    let mut q: usize = 0;
    while q < r.len()
        invariant
            q <= r@.len(),
            forall|p: int| 0 <= p < q && string_views(names@).contains(string_views(r@)[p])
                ==> string_views(order@).contains(#[trigger] string_views(r@)[p]),
        decreases r@.len() - q,
    {
        if contains_str(names, &r[q]) && !contains_str(order, &r[q]) {
            assert(string_views(r@)[q as int] == r@[q as int]@);
            return false;
        }
        assert(string_views(r@)[q as int] == r@[q as int]@);
        q += 1;
    }
    true
}

fn is_ready(
    attrs: &Vec<AttributeConfig>,
    names: &Vec<String>,
    refs: &Vec<Vec<String>>,
    order: &Vec<String>,
    y: &String,
) -> (b: bool)
    requires
        string_views(names@) == attr_names(attrs@),
        refs@.len() == attrs@.len(),
        forall|j: int| 0 <= j < attrs@.len() ==> string_views(#[trigger] refs@[j]@) == attr_refs(attrs@[j]),
    ensures
        b == ready(attrs@, string_views(order@), y@),
{
    let ghost a = attrs@;
    let mut j: usize = 0;
    while j < attrs.len()
        invariant
            j <= a.len(),
            a == attrs@,
            string_views(names@) == attr_names(a),
            refs@.len() == a.len(),
            forall|m: int| 0 <= m < a.len() ==> string_views(#[trigger] refs@[m]@) == attr_refs(a[m]),
            forall|m: int, q: int|
                0 <= m < j && a[m].name@ == y@ && 0 <= q < attr_refs(a[m]).len()
                    && attr_names(a).contains(attr_refs(a[m])[q])
                    ==> string_views(order@).contains(#[trigger] attr_refs(a[m])[q]),
        decreases a.len() - j,
    {
        if attrs[j].name == *y {
            let ok = refs_placed(&refs[j], names, order);
            assert(string_views(refs@[j as int]@) == attr_refs(a[j as int]));
            if !ok {
                return false;
            }
        }
        j += 1;
    }
    true
}

/// One pass over the attributes, placing each that may be placed.
fn place_pass(
    attrs: &Vec<AttributeConfig>,
    names: &Vec<String>,
    refs: &Vec<Vec<String>>,
    order: &mut Vec<String>,
) -> (progressed: bool)
    requires
        string_views(names@) == attr_names(attrs@),
        refs@.len() == attrs@.len(),
        forall|j: int| 0 <= j < attrs@.len() ==> string_views(#[trigger] refs@[j]@) == attr_refs(attrs@[j]),
        placeable(attrs@, string_views(old(order)@)),
    ensures
        placeable(attrs@, string_views(final(order)@)),
        final(order)@.len() <= attrs@.len(),
        progressed ==> final(order)@.len() > old(order)@.len(),
        !progressed ==> final(order)@ == old(order)@ && stuck(attrs@, string_views(final(order)@)),
{
    let ghost a = attrs@;
    let ghost start = order@;
    let mut progressed = false;
    let mut i: usize = 0;
    proof {
        lemma_nodup_subset_len(string_views(order@), attr_names(a));
    }
    while i < attrs.len()
        invariant
            i <= a.len(),
            a == attrs@,
            string_views(names@) == attr_names(a),
            refs@.len() == a.len(),
            forall|m: int| 0 <= m < a.len() ==> string_views(#[trigger] refs@[m]@) == attr_refs(a[m]),
            placeable(a, string_views(order@)),
            order@.len() <= a.len(),
            order@.len() >= start.len(),
            progressed ==> order@.len() > start.len(),
            !progressed ==> order@ == start,
            !progressed ==> forall|m: int| 0 <= m < i && !string_views(order@).contains(#[trigger] a[m].name@)
                ==> !ready(a, string_views(order@), a[m].name@),
        decreases a.len() - i,
    {
        let name = &attrs[i].name;
        assert(attr_names(a)[i as int] == a[i as int].name@);
        if !contains_str(order, name) && is_ready(attrs, names, refs, order, name) {
            let ghost before = string_views(order@);
            order.push(name.clone());
            let ghost after = string_views(order@);
            proof {
                assert(after =~= before.push(name@));
                assert(after.take(before.len() as int) =~= before);
                assert forall|k: int| 0 <= k < after.len() implies attr_names(a).contains(#[trigger] after[k]) by {
                    if k < before.len() {
                        assert(after[k] == before[k]);
                    } else {
                        assert(attr_names(a)[i as int] == name@);
                    }
                }
                assert forall|k: int| 0 <= k < after.len() implies ready(a, after.take(k), #[trigger] after[k]) by {
                    if k < before.len() {
                        assert(after.take(k) =~= before.take(k));
                        assert(after[k] == before[k]);
                    }
                }
                assert(after.no_duplicates()) by {
                    assert forall|p: int, q: int| 0 <= p < after.len() && 0 <= q < after.len() && p != q implies after[p] != after[q] by {
                        if p < before.len() && q < before.len() {
                            assert(after[p] == before[p] && after[q] == before[q]);
                        } else if p < before.len() {
                            assert(before.contains(before[p]));
                        } else if q < before.len() {
                            assert(before.contains(before[q]));
                        }
                    }
                }
                lemma_nodup_subset_len(after, attr_names(a));
            }
            progressed = true;
        }
        i += 1;
    }
    progressed
}

/// Orders the attribute names so that each comes after the attribute names
/// its template refers to. Names are placed for as long as one can be; when
/// not every attribute gets a place (a cycle, or a name given twice) the
/// error names, in order of first appearance, those left without one.
pub fn topological_sort_attributes(attributes: &Vec<AttributeConfig>) -> (r: Result<Vec<String>, String>)
    ensures
        r is Ok <==> attributes_orderable(attributes@),
        match r {
            Ok(order) => placeable(attributes@, string_views(order@)) && order@.len() == attributes@.len(),
            Err(m) => m@ == cycle_text(attributes@),
        },
{
    let names = collect_attr_names(attributes);
    let refs = collect_refs(attributes);
    let mut order: Vec<String> = Vec::new();
    assert(placeable(attributes@, string_views(order@))) by {
        assert(string_views(order@) =~= Seq::<Seq<char>>::empty());
    }
    loop
        invariant
            string_views(names@) == attr_names(attributes@),
            refs@.len() == attributes@.len(),
            forall|j: int| 0 <= j < attributes@.len() ==> string_views(#[trigger] refs@[j]@) == attr_refs(attributes@[j]),
            placeable(attributes@, string_views(order@)),
            order@.len() <= attributes@.len(),
        ensures
            placeable(attributes@, string_views(order@)),
            stuck(attributes@, string_views(order@)),
        decreases attributes@.len() - order@.len(),
    {
        let progressed = place_pass(attributes, &names, &refs, &mut order);
        if !progressed {
            break;
        }
    }
    let ghost o = string_views(order@);
    proof {
        let s = settled_order(attributes@);
        assert(placeable(attributes@, s) && stuck(attributes@, s));
        lemma_settled_unique(attributes@, o, s);
    }
    if order.len() == attributes.len() {
        return Ok(order);
    }
    let left = unplaced_names(attributes, &names, &order);
    Err(cycle_message(&left))
}

fn unplaced_names(attributes: &Vec<AttributeConfig>, names: &Vec<String>, order: &Vec<String>) -> (left: Vec<Vec<char>>)
    requires
        string_views(names@) == attr_names(attributes@),
    ensures
        views(left@) == unplaced(attributes@, string_views(order@)),
{
    let ghost o = string_views(order@);
    assert(names@.len() == string_views(names@).len());
    let mut left: Vec<Vec<char>> = Vec::new();
    let mut i: usize = 0;
    while i < attributes.len()
        invariant
            i <= attributes@.len(),
            names@.len() == attributes@.len(),
            string_views(names@) == attr_names(attributes@),
            o == string_views(order@),
            views(left@) == unplaced(attributes@.take(i as int), o),
        decreases attributes@.len() - i,
    {
        let ghost t = attributes@.take(i as int + 1);
        assert(t.drop_last() =~= attributes@.take(i as int));
        assert(attr_names(t.drop_last()) =~= string_views(names@).take(i as int));
        assert(string_views(names@)[i as int] == attr_names(attributes@)[i as int]);
        let n = &names[i];
        if !contains_str(order, n) && !prefix_contains(names, i, n) {
            let ghost prev = left@;
            left.push(chars_of(n.as_str()));
            assert(views(left@) =~= views(prev).push(n@));
        }
        i += 1;
    }
    assert(attributes@.take(attributes@.len() as int) =~= attributes@);
    left
}

fn cycle_message(left: &Vec<Vec<char>>) -> (m: String)
    ensures
        m@ == "cycle involving: "@ + join_with(views(left@), ", "@),
{
    let mut msg: Vec<char> = Vec::new();
    append_str(&mut msg, "cycle involving: ");
    let body = join_chars(left, chars_of(", ").as_slice());
    let mut k: usize = 0;
    let ghost start = msg@;
    while k < body.len()
        invariant
            k <= body@.len(),
            msg@ == start + body@.take(k as int),
        decreases body@.len() - k,
    {
        msg.push(body[k]);
        assert(msg@ =~= start + body@.take(k as int + 1));
        k += 1;
    }
    assert(body@.take(body@.len() as int) =~= body@);
    string_from_chars(msg.as_slice())
}


// ---------------------------------------------------------------------------
// Validating a configuration
// ---------------------------------------------------------------------------

/// How messages about a fiber type begin.
pub open spec fn fiber_prefix(name: Seq<char>) -> Seq<char> {
    "fiber_type '"@ + name + "'"@
}

/// A message for each source the fiber type names that is not configured.
pub open spec fn missing_source_errors(
    prefix: Seq<char>,
    fsrcs: Seq<(String, FiberSourceConfig)>,
    sources: Seq<(String, SourceConfig)>,
) -> Seq<Seq<char>>
    decreases fsrcs.len(),
{
    if fsrcs.len() == 0 {
        Seq::empty()
    } else {
        let r = missing_source_errors(prefix, fsrcs.drop_last(), sources);
        let n = fsrcs.last().0@;
        if has_key(sources, n) {
            r
        } else {
            r.push(prefix + ": references non-existent source '"@ + n + "'"@)
        }
    }
}

/// Some capture group is named `ts`.
pub open spec fn has_ts_group(g: Seq<Option<Seq<char>>>) -> bool {
    exists|i: int| 0 <= i < g.len() && #[trigger] g[i] == Some("ts"@)
}

/// What is wrong with a source's timestamp pattern.
pub open spec fn timestamp_pattern_errors(ctx: Seq<char>, p: Seq<char>) -> Seq<Seq<char>> {
    if !regex_accepts(p) {
        seq![ctx + ": invalid timestamp pattern regex: "@ + p + " (error: "@ + regex_error_message(p) + ")"@]
    } else if !has_ts_group(regex_group_names(p)) {
        seq![ctx + ": timestamp pattern must contain named capture group 'ts': "@ + p]
    } else {
        Seq::empty()
    }
}

/// What is wrong with the timestamp patterns of the sources the fiber type
/// uses, in the order of the configured sources.
pub open spec fn timestamp_errors(
    sources: Seq<(String, SourceConfig)>,
    fsrcs: Seq<(String, FiberSourceConfig)>,
) -> Seq<Seq<char>>
    decreases sources.len(),
{
    if sources.len() == 0 {
        Seq::empty()
    } else {
        let r = timestamp_errors(sources.drop_last(), fsrcs);
        let s = sources.last();
        if has_key(fsrcs, s.0@) {
            r + timestamp_pattern_errors("source '"@ + s.0@ + "'"@, s.1.timestamp.pattern@)
        } else {
            r
        }
    }
}

/// A message for each attribute whose name an earlier attribute has.
pub open spec fn duplicate_errors(prefix: Seq<char>, attrs: Seq<AttributeConfig>) -> Seq<Seq<char>>
    decreases attrs.len(),
{
    if attrs.len() == 0 {
        Seq::empty()
    } else {
        let r = duplicate_errors(prefix, attrs.drop_last());
        let n = attrs.last().name@;
        if attr_names(attrs.drop_last()).contains(n) {
            r.push(prefix + ": duplicate attribute name '"@ + n + "'"@)
        } else {
            r
        }
    }
}

/// Whether the last attribute with the name is a key; `None` when no
/// attribute has the name.
pub open spec fn last_attr_key(attrs: Seq<AttributeConfig>, n: Seq<char>) -> Option<bool>
    decreases attrs.len(),
{
    if attrs.len() == 0 {
        None
    } else if attrs.last().name@ == n {
        Some(attrs.last().key)
    } else {
        last_attr_key(attrs.drop_last(), n)
    }
}

/// What is wrong with a name listed under `field`: it must be a key attribute.
pub open spec fn key_errors(ctx: Seq<char>, field: Seq<char>, key: Seq<char>, attrs: Seq<AttributeConfig>) -> Seq<Seq<char>> {
    match last_attr_key(attrs, key) {
        Some(true) => Seq::empty(),
        Some(false) => seq![ctx + ": "@ + field + " contains '"@ + key + "' which is not marked as a key"@],
        None => seq![ctx + ": "@ + field + " contains '"@ + key + "' which is not a defined attribute"@],
    }
}

/// What is wrong with the keys to release from peers.
pub open spec fn peer_key_errors(ctx: Seq<char>, keys: Seq<String>, groups: Seq<Seq<char>>, attrs: Seq<AttributeConfig>) -> Seq<Seq<char>>
    decreases keys.len(),
{
    if keys.len() == 0 {
        Seq::empty()
    } else {
        let r = peer_key_errors(ctx, keys.drop_last(), groups, attrs);
        let k = keys.last()@;
        let g = if groups.contains(k) {
            Seq::empty()
        } else {
            seq![ctx + ": release_matching_peer_keys contains '"@ + k + "' which is not a capture group in the pattern"@]
        };
        r + g + key_errors(ctx, "release_matching_peer_keys"@, k, attrs)
    }
}

/// What is wrong with the keys to release from the fiber itself.
pub open spec fn self_key_errors(ctx: Seq<char>, keys: Seq<String>, attrs: Seq<AttributeConfig>) -> Seq<Seq<char>>
    decreases keys.len(),
{
    if keys.len() == 0 {
        Seq::empty()
    } else {
        self_key_errors(ctx, keys.drop_last(), attrs) + key_errors(ctx, "release_self_keys"@, keys.last()@, attrs)
    }
}

/// What is wrong with a pattern.
pub open spec fn pattern_errors(ctx: Seq<char>, pc: PatternConfig, attrs: Seq<AttributeConfig>) -> Seq<Seq<char>> {
    if !regex_accepts(pc.regex@) {
        seq![ctx + ": invalid regex '"@ + pc.regex@ + "': "@ + regex_error_message(pc.regex@)]
    } else {
        peer_key_errors(ctx, pc.release_matching_peer_keys@, named_groups(regex_group_names(pc.regex@)), attrs)
            + self_key_errors(ctx, pc.release_self_keys@, attrs)
    }
}

/// How messages about a pattern begin.
pub open spec fn pattern_context(prefix: Seq<char>, source: Seq<char>, i: nat) -> Seq<char> {
    prefix + ", source '"@ + source + "', pattern "@ + spec_decimal(i)
}

/// What is wrong with the patterns of one source, pattern by pattern.
pub open spec fn source_pattern_errors(prefix: Seq<char>, source: Seq<char>, pcs: Seq<PatternConfig>, attrs: Seq<AttributeConfig>) -> Seq<Seq<char>>
    decreases pcs.len(),
{
    if pcs.len() == 0 {
        Seq::empty()
    } else {
        source_pattern_errors(prefix, source, pcs.drop_last(), attrs)
            + pattern_errors(pattern_context(prefix, source, (pcs.len() - 1) as nat), pcs.last(), attrs)
    }
}

/// What is wrong with the patterns of every source of the fiber type.
pub open spec fn all_pattern_errors(prefix: Seq<char>, fsrcs: Seq<(String, FiberSourceConfig)>, attrs: Seq<AttributeConfig>) -> Seq<Seq<char>>
    decreases fsrcs.len(),
{
    if fsrcs.len() == 0 {
        Seq::empty()
    } else {
        all_pattern_errors(prefix, fsrcs.drop_last(), attrs)
            + source_pattern_errors(prefix, fsrcs.last().0@, fsrcs.last().1.patterns@, attrs)
    }
}

/// A message for each reference of a derived attribute to a name that is
/// not an attribute.
pub open spec fn ref_errors(prefix: Seq<char>, attr: Seq<char>, refs: Seq<Seq<char>>, names: Seq<Seq<char>>) -> Seq<Seq<char>>
    decreases refs.len(),
{
    if refs.len() == 0 {
        Seq::empty()
    } else {
        let r = ref_errors(prefix, attr, refs.drop_last(), names);
        let x = refs.last();
        if names.contains(x) {
            r
        } else {
            r.push(prefix + ": derived attribute '"@ + attr + "' references non-existent attribute '"@ + x + "'"@)
        }
    }
}

/// The reference messages of each derived attribute among `attrs`.
pub open spec fn derived_ref_errors(prefix: Seq<char>, attrs: Seq<AttributeConfig>, names: Seq<Seq<char>>) -> Seq<Seq<char>>
    decreases attrs.len(),
{
    if attrs.len() == 0 {
        Seq::empty()
    } else {
        derived_ref_errors(prefix, attrs.drop_last(), names) + ref_errors(prefix, attrs.last().name@, attr_refs(attrs.last()), names)
    }
}

/// What is wrong with the derived attributes: references to unknown
/// names, then a cycle among them.
pub open spec fn derived_errors(prefix: Seq<char>, attrs: Seq<AttributeConfig>) -> Seq<Seq<char>> {
    let r = derived_ref_errors(prefix, attrs, attr_names(attrs));
    if attributes_orderable(attrs) {
        r
    } else {
        r.push(prefix + ": circular dependency in derived attributes: "@ + cycle_text(attrs))
    }
}

/// Every message about a fiber type, in the order they are checked.
pub open spec fn fiber_type_errors(name: Seq<char>, ft: FiberTypeConfig, sources: Seq<(String, SourceConfig)>) -> Seq<Seq<char>> {
    let p = fiber_prefix(name);
    missing_source_errors(p, ft.sources@, sources) + timestamp_errors(sources, ft.sources@)
        + duplicate_errors(p, ft.attributes@) + all_pattern_errors(p, ft.sources@, ft.attributes@)
        + derived_errors(p, ft.attributes@)
}

/// Every message about the fiber types, fiber type by fiber type.
pub open spec fn config_errors(fts: Seq<(String, FiberTypeConfig)>, sources: Seq<(String, SourceConfig)>) -> Seq<Seq<char>>
    decreases fts.len(),
{
    if fts.len() == 0 {
        Seq::empty()
    } else {
        config_errors(fts.drop_last(), sources) + fiber_type_errors(fts.last().0@, fts.last().1, sources)
    }
}

fn cat3(a: &str, b: &str, c: &str) -> (r: String)
    ensures
        r@ == a@ + b@ + c@,
{
    let mut v: Vec<char> = Vec::new();
    append_str(&mut v, a);
    append_str(&mut v, b);
    append_str(&mut v, c);
    assert(v@ =~= a@ + b@ + c@);
    string_from_chars(v.as_slice())
}

fn cat4(a: &str, b: &str, c: &str, d: &str) -> (r: String)
    ensures
        r@ == a@ + b@ + c@ + d@,
{
    let mut v: Vec<char> = Vec::new();
    append_str(&mut v, a);
    append_str(&mut v, b);
    append_str(&mut v, c);
    append_str(&mut v, d);
    assert(v@ =~= a@ + b@ + c@ + d@);
    string_from_chars(v.as_slice())
}

fn cat5(a: &str, b: &str, c: &str, d: &str, e: &str) -> (r: String)
    ensures
        r@ == a@ + b@ + c@ + d@ + e@,
{
    let mut v: Vec<char> = Vec::new();
    append_str(&mut v, a);
    append_str(&mut v, b);
    append_str(&mut v, c);
    append_str(&mut v, d);
    append_str(&mut v, e);
    assert(v@ =~= a@ + b@ + c@ + d@ + e@);
    string_from_chars(v.as_slice())
}

fn cat6(a: &str, b: &str, c: &str, d: &str, e: &str, f: &str) -> (r: String)
    ensures
        r@ == a@ + b@ + c@ + d@ + e@ + f@,
{
    let mut v: Vec<char> = Vec::new();
    append_str(&mut v, a);
    append_str(&mut v, b);
    append_str(&mut v, c);
    append_str(&mut v, d);
    append_str(&mut v, e);
    append_str(&mut v, f);
    assert(v@ =~= a@ + b@ + c@ + d@ + e@ + f@);
    string_from_chars(v.as_slice())
}

fn push_msg(errors: &mut Vec<String>, m: String)
    ensures
        string_views(final(errors)@) == string_views(old(errors)@).push(m@),
{
    let ghost prev = errors@;
    errors.push(m);
    assert(string_views(errors@) =~= string_views(prev).push(m@));
}

fn push_msgs(errors: &mut Vec<String>, ms: Vec<String>)
    ensures
        string_views(final(errors)@) == string_views(old(errors)@) + string_views(ms@),
{
    let ghost start = string_views(errors@);
    let mut i: usize = 0;
    while i < ms.len()
        invariant
            i <= ms@.len(),
            string_views(errors@) == start + string_views(ms@).take(i as int),
        decreases ms@.len() - i,
    {
        push_msg(errors, ms[i].clone());
        assert(string_views(ms@).take(i as int + 1) =~= string_views(ms@).take(i as int).push(ms@[i as int]@));
        i += 1;
    }
    assert(string_views(ms@).take(ms@.len() as int) =~= string_views(ms@));
}

fn has_key_entry<T>(v: &Vec<(String, T)>, k: &String) -> (b: bool)
    ensures
        b == has_key(v@, k@),
{
    let mut i: usize = 0;
    while i < v.len()
        invariant
            i <= v@.len(),
            forall|q: int| 0 <= q < i ==> v@[q].0@ != k@,
        decreases v@.len() - i,
    {
        if v[i].0 == *k {
            return true;
        }
        i += 1;
    }
    false
}

fn check_missing_sources(
    prefix: &String,
    fsrcs: &Vec<(String, FiberSourceConfig)>,
    sources: &Vec<(String, SourceConfig)>,
    errors: &mut Vec<String>,
)
    ensures
        string_views(final(errors)@) == string_views(old(errors)@) + missing_source_errors(prefix@, fsrcs@, sources@),
{
    let ghost start = string_views(errors@);
    let mut i: usize = 0;
    while i < fsrcs.len()
        invariant
            i <= fsrcs@.len(),
            string_views(errors@) == start + missing_source_errors(prefix@, fsrcs@.take(i as int), sources@),
        decreases fsrcs@.len() - i,
    {
        assert(fsrcs@.take(i as int + 1).drop_last() =~= fsrcs@.take(i as int));
        let n = &fsrcs[i].0;
        if !has_key_entry(sources, n) {
            push_msg(errors, cat4(prefix.as_str(), ": references non-existent source '", n.as_str(), "'"));
        }
        i += 1;
    }
    assert(fsrcs@.take(fsrcs@.len() as int) =~= fsrcs@);
}

fn has_ts(names: &Vec<Option<String>>) -> (b: bool)
    ensures
        b == has_ts_group(opt_views(names@)),
{
    let mut i: usize = 0;
    while i < names.len()
        invariant
            i <= names@.len(),
            forall|q: int| 0 <= q < i ==> #[trigger] opt_views(names@)[q] != Some("ts"@),
        decreases names@.len() - i,
    {
        match &names[i] {
            Some(n) => {
                if str_eq(n.as_str(), "ts") {
                    assert(opt_views(names@)[i as int] == Some("ts"@));
                    return true;
                }
            },
            None => {},
        }
        assert(opt_views(names@)[i as int] != Some("ts"@));
        i += 1;
    }
    false
}

fn check_timestamp_pattern(ctx: &String, pattern: &String, errors: &mut Vec<String>)
    ensures
        string_views(final(errors)@) == string_views(old(errors)@) + timestamp_pattern_errors(ctx@, pattern@),
{
    match CompiledRegex::compile(pattern.as_str()) {
        Ok(re) => {
            let names = re.group_names();
            if !has_ts(&names) {
                push_msg(errors, cat3(ctx.as_str(), ": timestamp pattern must contain named capture group 'ts': ", pattern.as_str()));
            } else {
                assert(string_views(errors@) =~= string_views(errors@) + Seq::<Seq<char>>::empty());
            }
        },
        Err(e) => {
            push_msg(errors, cat6(ctx.as_str(), ": invalid timestamp pattern regex: ", pattern.as_str(), " (error: ", e.message.as_str(), ")"));
        },
    }
}

fn check_timestamps(
    sources: &Vec<(String, SourceConfig)>,
    fsrcs: &Vec<(String, FiberSourceConfig)>,
    errors: &mut Vec<String>,
)
    ensures
        string_views(final(errors)@) == string_views(old(errors)@) + timestamp_errors(sources@, fsrcs@),
{
    let ghost start = string_views(errors@);
    let mut i: usize = 0;
    while i < sources.len()
        invariant
            i <= sources@.len(),
            string_views(errors@) == start + timestamp_errors(sources@.take(i as int), fsrcs@),
        decreases sources@.len() - i,
    {
        assert(sources@.take(i as int + 1).drop_last() =~= sources@.take(i as int));
        let n = &sources[i].0;
        if has_key_entry(fsrcs, n) {
            let ctx = cat3("source '", n.as_str(), "'");
            check_timestamp_pattern(&ctx, &sources[i].1.timestamp.pattern, errors);
        }
        i += 1;
    }
    assert(sources@.take(sources@.len() as int) =~= sources@);
}

fn check_duplicates(prefix: &String, attrs: &Vec<AttributeConfig>, errors: &mut Vec<String>)
    ensures
        string_views(final(errors)@) == string_views(old(errors)@) + duplicate_errors(prefix@, attrs@),
{
    let names = collect_attr_names(attrs);
    let ghost start = string_views(errors@);
    assert(names@.len() == string_views(names@).len());
    let mut i: usize = 0;
    while i < attrs.len()
        invariant
            i <= attrs@.len(),
            names@.len() == attrs@.len(),
            string_views(names@) == attr_names(attrs@),
            string_views(errors@) == start + duplicate_errors(prefix@, attrs@.take(i as int)),
        decreases attrs@.len() - i,
    {
        let ghost t = attrs@.take(i as int + 1);
        assert(t.drop_last() =~= attrs@.take(i as int));
        assert(attr_names(t.drop_last()) =~= string_views(names@).take(i as int));
        assert(string_views(names@)[i as int] == attr_names(attrs@)[i as int]);
        if prefix_contains(&names, i, &names[i]) {
            push_msg(errors, cat4(prefix.as_str(), ": duplicate attribute name '", names[i].as_str(), "'"));
        }
        i += 1;
    }
    assert(attrs@.take(attrs@.len() as int) =~= attrs@);
}

fn find_last_key(attrs: &Vec<AttributeConfig>, n: &String) -> (r: Option<bool>)
    ensures
        r == last_attr_key(attrs@, n@),
{
    let mut i: usize = attrs.len();
    assert(attrs@.take(attrs@.len() as int) =~= attrs@);
    while i > 0
        invariant
            i <= attrs@.len(),
            last_attr_key(attrs@, n@) == last_attr_key(attrs@.take(i as int), n@),
        decreases i,
    {
        let ghost t = attrs@.take(i as int);
        assert(t.drop_last() =~= attrs@.take(i as int - 1));
        if attrs[i - 1].name == *n {
            return Some(attrs[i - 1].key);
        }
        i -= 1;
    }
    None
}

fn check_key(ctx: &String, field: &str, key: &String, attrs: &Vec<AttributeConfig>, errors: &mut Vec<String>)
    ensures
        string_views(final(errors)@) == string_views(old(errors)@) + key_errors(ctx@, field@, key@, attrs@),
{
    match find_last_key(attrs, key) {
        Some(true) => {
            assert(string_views(errors@) =~= string_views(errors@) + Seq::<Seq<char>>::empty());
        },
        Some(false) => {
            push_msg(errors, cat6(ctx.as_str(), ": ", field, " contains '", key.as_str(), "' which is not marked as a key"));
        },
        None => {
            push_msg(errors, cat6(ctx.as_str(), ": ", field, " contains '", key.as_str(), "' which is not a defined attribute"));
        },
    }
}

fn collect_group_names(names: &Vec<Option<String>>) -> (r: Vec<String>)
    ensures
        string_views(r@) == named_groups(opt_views(names@)),
{
    let mut r: Vec<String> = Vec::new();
    let mut i: usize = 0;
    while i < names.len()
        invariant
            i <= names@.len(),
            string_views(r@) == named_groups(opt_views(names@).take(i as int)),
        decreases names@.len() - i,
    {
        assert(opt_views(names@).take(i as int + 1).drop_last() =~= opt_views(names@).take(i as int));
        assert(opt_views(names@).take(i as int + 1).last() == opt_views(names@)[i as int]);
        match &names[i] {
            Some(n) => {
                let ghost prev = r@;
                r.push(n.clone());
                assert(string_views(r@) =~= string_views(prev).push(n@));
            },
            None => {},
        }
        i += 1;
    }
    assert(opt_views(names@).take(names@.len() as int) =~= opt_views(names@));
    r
}

fn check_peer_keys(ctx: &String, keys: &Vec<String>, groups: &Vec<String>, attrs: &Vec<AttributeConfig>, errors: &mut Vec<String>)
    ensures
        string_views(final(errors)@) == string_views(old(errors)@) + peer_key_errors(ctx@, keys@, string_views(groups@), attrs@),
{
    let ghost start = string_views(errors@);
    let mut i: usize = 0;
    while i < keys.len()
        invariant
            i <= keys@.len(),
            string_views(errors@) == start + peer_key_errors(ctx@, keys@.take(i as int), string_views(groups@), attrs@),
        decreases keys@.len() - i,
    {
        assert(keys@.take(i as int + 1).drop_last() =~= keys@.take(i as int));
        let k = &keys[i];
        let ghost mid = string_views(errors@);
        if !contains_str(groups, k) {
            push_msg(errors, cat4(ctx.as_str(), ": release_matching_peer_keys contains '", k.as_str(), "' which is not a capture group in the pattern"));
        }
        let ghost after_group = string_views(errors@);
        check_key(ctx, "release_matching_peer_keys", k, attrs, errors);
        proof {
            let g = if string_views(groups@).contains(k@) {
                Seq::<Seq<char>>::empty()
            } else {
                seq![ctx@ + ": release_matching_peer_keys contains '"@ + k@ + "' which is not a capture group in the pattern"@]
            };
            assert(after_group =~= mid + g);
            assert(string_views(errors@) =~= mid + g + key_errors(ctx@, "release_matching_peer_keys"@, k@, attrs@));
        }
        i += 1;
    }
    assert(keys@.take(keys@.len() as int) =~= keys@);
}

fn check_self_keys(ctx: &String, keys: &Vec<String>, attrs: &Vec<AttributeConfig>, errors: &mut Vec<String>)
    ensures
        string_views(final(errors)@) == string_views(old(errors)@) + self_key_errors(ctx@, keys@, attrs@),
{
    let ghost start = string_views(errors@);
    let mut i: usize = 0;
    while i < keys.len()
        invariant
            i <= keys@.len(),
            string_views(errors@) == start + self_key_errors(ctx@, keys@.take(i as int), attrs@),
        decreases keys@.len() - i,
    {
        assert(keys@.take(i as int + 1).drop_last() =~= keys@.take(i as int));
        check_key(ctx, "release_self_keys", &keys[i], attrs, errors);
        i += 1;
    }
    assert(keys@.take(keys@.len() as int) =~= keys@);
}

fn check_pattern(ctx: &String, pc: &PatternConfig, attrs: &Vec<AttributeConfig>, errors: &mut Vec<String>)
    ensures
        string_views(final(errors)@) == string_views(old(errors)@) + pattern_errors(ctx@, *pc, attrs@),
{
    match CompiledRegex::compile(pc.regex.as_str()) {
        Ok(re) => {
            let names = re.group_names();
            let groups = collect_group_names(&names);
            let ghost start = string_views(errors@);
            check_peer_keys(ctx, &pc.release_matching_peer_keys, &groups, attrs, errors);
            check_self_keys(ctx, &pc.release_self_keys, attrs, errors);
            assert(string_views(errors@) =~= start + (peer_key_errors(ctx@, pc.release_matching_peer_keys@, string_views(groups@), attrs@)
                + self_key_errors(ctx@, pc.release_self_keys@, attrs@)));
        },
        Err(e) => {
            push_msg(errors, cat5(ctx.as_str(), ": invalid regex '", pc.regex.as_str(), "': ", e.message.as_str()));
        },
    }
}

fn check_source_patterns(prefix: &String, source: &String, pcs: &Vec<PatternConfig>, attrs: &Vec<AttributeConfig>, errors: &mut Vec<String>)
    ensures
        string_views(final(errors)@) == string_views(old(errors)@) + source_pattern_errors(prefix@, source@, pcs@, attrs@),
{
    let ghost start = string_views(errors@);
    let mut i: usize = 0;
    while i < pcs.len()
        invariant
            i <= pcs@.len(),
            string_views(errors@) == start + source_pattern_errors(prefix@, source@, pcs@.take(i as int), attrs@),
        decreases pcs@.len() - i,
    {
        assert(pcs@.take(i as int + 1).drop_last() =~= pcs@.take(i as int));
        let idx = string_from_chars(decimal_chars(i as u64).as_slice());
        let ctx = cat5(prefix.as_str(), ", source '", source.as_str(), "', pattern ", idx.as_str());
        let ghost mid = string_views(errors@);
        check_pattern(&ctx, &pcs[i], attrs, errors);
        assert(string_views(errors@) =~= start + (source_pattern_errors(prefix@, source@, pcs@.take(i as int), attrs@)
            + pattern_errors(pattern_context(prefix@, source@, i as nat), pcs@[i as int], attrs@)));
        i += 1;
    }
    assert(pcs@.take(pcs@.len() as int) =~= pcs@);
}

fn check_all_patterns(prefix: &String, fsrcs: &Vec<(String, FiberSourceConfig)>, attrs: &Vec<AttributeConfig>, errors: &mut Vec<String>)
    ensures
        string_views(final(errors)@) == string_views(old(errors)@) + all_pattern_errors(prefix@, fsrcs@, attrs@),
{
    let ghost start = string_views(errors@);
    let mut i: usize = 0;
    while i < fsrcs.len()
        invariant
            i <= fsrcs@.len(),
            string_views(errors@) == start + all_pattern_errors(prefix@, fsrcs@.take(i as int), attrs@),
        decreases fsrcs@.len() - i,
    {
        assert(fsrcs@.take(i as int + 1).drop_last() =~= fsrcs@.take(i as int));
        check_source_patterns(prefix, &fsrcs[i].0, &fsrcs[i].1.patterns, attrs, errors);
        assert(string_views(errors@) =~= start + (all_pattern_errors(prefix@, fsrcs@.take(i as int), attrs@)
            + source_pattern_errors(prefix@, fsrcs@[i as int].0@, fsrcs@[i as int].1.patterns@, attrs@)));
        i += 1;
    }
    assert(fsrcs@.take(fsrcs@.len() as int) =~= fsrcs@);
}

fn check_refs(prefix: &String, attr: &String, refs: &Vec<String>, names: &Vec<String>, errors: &mut Vec<String>)
    ensures
        string_views(final(errors)@) == string_views(old(errors)@) + ref_errors(prefix@, attr@, string_views(refs@), string_views(names@)),
{
    let ghost start = string_views(errors@);
    let ghost rv = string_views(refs@);
    let mut i: usize = 0;
    while i < refs.len()
        invariant
            i <= refs@.len(),
            rv == string_views(refs@),
            string_views(errors@) == start + ref_errors(prefix@, attr@, rv.take(i as int), string_views(names@)),
        decreases refs@.len() - i,
    {
        assert(rv.take(i as int + 1).drop_last() =~= rv.take(i as int));
        assert(rv.take(i as int + 1).last() == refs@[i as int]@);
        if !contains_str(names, &refs[i]) {
            push_msg(errors, cat6(prefix.as_str(), ": derived attribute '", attr.as_str(), "' references non-existent attribute '", refs[i].as_str(), "'"));
        }
        i += 1;
    }
    assert(rv.take(refs@.len() as int) =~= rv);
}

fn check_derived(prefix: &String, attrs: &Vec<AttributeConfig>, errors: &mut Vec<String>)
    ensures
        string_views(final(errors)@) == string_views(old(errors)@) + derived_errors(prefix@, attrs@),
{
    let names = collect_attr_names(attrs);
    let ghost start = string_views(errors@);
    let mut i: usize = 0;
    while i < attrs.len()
        invariant
            i <= attrs@.len(),
            string_views(names@) == attr_names(attrs@),
            string_views(errors@) == start + derived_ref_errors(prefix@, attrs@.take(i as int), attr_names(attrs@)),
        decreases attrs@.len() - i,
    {
        assert(attrs@.take(i as int + 1).drop_last() =~= attrs@.take(i as int));
        match &attrs[i].derived {
            Some(t) => {
                let refs = extract_variable_references(t.as_str());
                check_refs(prefix, &attrs[i].name, &refs, &names, errors);
            },
            None => {
                assert(string_views(errors@) =~= string_views(errors@) + Seq::<Seq<char>>::empty());
            },
        }
        assert(string_views(errors@) =~= start + (derived_ref_errors(prefix@, attrs@.take(i as int), attr_names(attrs@))
            + ref_errors(prefix@, attrs@[i as int].name@, attr_refs(attrs@[i as int]), attr_names(attrs@))));
        i += 1;
    }
    assert(attrs@.take(attrs@.len() as int) =~= attrs@);
    match topological_sort_attributes(attrs) {
        Ok(_) => {},
        Err(cycle) => {
            push_msg(errors, cat3(prefix.as_str(), ": circular dependency in derived attributes: ", cycle.as_str()));
        },
    }
}

/// Adds a message for each rule the fiber type breaks: sources it names
/// that are not configured, bad timestamp patterns of its sources,
/// attribute names given twice, bad patterns and release keys, references
/// of derived attributes to unknown names, and cycles among them.
pub fn validate_fiber_type(
    fiber_type_name: &str,
    fiber_type: &FiberTypeConfig,
    sources: &Vec<(String, SourceConfig)>,
    errors: &mut Vec<String>,
)
    ensures
        string_views(final(errors)@) == string_views(old(errors)@) + fiber_type_errors(fiber_type_name@, *fiber_type, sources@),
{
    let prefix = cat3("fiber_type '", fiber_type_name, "'");
    let ghost start = string_views(errors@);
    check_missing_sources(&prefix, &fiber_type.sources, sources, errors);
    check_timestamps(sources, &fiber_type.sources, errors);
    check_duplicates(&prefix, &fiber_type.attributes, errors);
    check_all_patterns(&prefix, &fiber_type.sources, &fiber_type.attributes, errors);
    check_derived(&prefix, &fiber_type.attributes, errors);
    assert(string_views(errors@) =~= start + fiber_type_errors(fiber_type_name@, *fiber_type, sources@));
}

/// Checks every fiber type of the configuration; fails with every message
/// found, fiber type by fiber type, when there is any.
pub fn validate_config(config: &Config) -> (r: Result<(), ConfigError>)
    ensures
        r is Ok <==> config_errors(config.fiber_types@, config.sources@).len() == 0,
        r matches Err(e) ==> e matches ConfigError::ValidationList(v) && string_views(v@) == config_errors(config.fiber_types@, config.sources@),
{
    let mut errors: Vec<String> = Vec::new();
    let fts = &config.fiber_types;
    let mut i: usize = 0;
    assert(string_views(errors@) =~= Seq::<Seq<char>>::empty());
    while i < fts.len()
        invariant
            i <= fts@.len(),
            string_views(errors@) == config_errors(fts@.take(i as int), config.sources@),
        decreases fts@.len() - i,
    {
        assert(fts@.take(i as int + 1).drop_last() =~= fts@.take(i as int));
        validate_fiber_type(fts[i].0.as_str(), &fts[i].1, &config.sources, &mut errors);
        i += 1;
    }
    assert(fts@.take(fts@.len() as int) =~= fts@);
    if errors.len() == 0 {
        Ok(())
    } else {
        Err(ConfigError::ValidationList(errors))
    }
}

} // verus!

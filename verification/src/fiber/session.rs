use vstd::prelude::*;
use crate::assoc::{AssocMap, to_map, unique_keys, has_key, lemma_to_map_unique};
use crate::config::types::AttributeType;
use crate::text::{
    chars_of, string_from_chars, split_chars, join_chars, contains_char, parse_unsigned, parse_i64,
    decimal_chars, split_on, join_with, views, seq_contains_char, spec_parse_unsigned, spec_parse_i64,
    spec_decimal, is_ascii_digit, all_digits, lemma_split_on_len,
};
use crate::time::Timestamp;

verus! {

/// The value of a fiber attribute. A floating-point value is kept as the
/// text it was written with, once that text is known to be a float literal.
#[derive(Debug, PartialEq, Eq)]
pub enum AttributeValue {
    String(String),
    Int(i64),
    Float(String),
}

/// An attribute value as the contracts see it.
pub enum AttrView {
    Str(Seq<char>),
    Int(i64),
    Float(Seq<char>),
}

impl View for AttributeValue {
    type V = AttrView;

    open spec fn view(&self) -> AttrView {
        match self {
            AttributeValue::String(s) => AttrView::Str(s@),
            AttributeValue::Int(i) => AttrView::Int(*i),
            AttributeValue::Float(s) => AttrView::Float(s@),
        }
    }
}

impl Clone for AttributeValue {
    fn clone(&self) -> (r: Self)
        ensures
            r@ == self@,
    {
        match self {
            AttributeValue::String(s) => AttributeValue::String(s.clone()),
            AttributeValue::Int(i) => AttributeValue::Int(*i),
            AttributeValue::Float(s) => AttributeValue::Float(s.clone()),
        }
    }
}

/// The text a value is matched by when it is used as a key.
pub open spec fn spec_key_string(v: AttrView) -> Seq<char> {
    match v {
        AttrView::Str(s) => s,
        AttrView::Int(i) => crate::text::spec_decimal_i64(i as int),
        AttrView::Float(s) => s,
    }
}

// ---------------------------------------------------------------------------
// Float literals (the grammar that `f64::from_str` accepts)
// ---------------------------------------------------------------------------

pub open spec fn strip_sign(s: Seq<char>) -> Seq<char> {
    if s.len() > 0 && (s[0] == '+' || s[0] == '-') { s.drop_first() } else { s }
}

pub open spec fn lower_ascii(c: char) -> char {
    if 'A' <= c && c <= 'Z' { ((c as u32) + 32) as char } else { c }
}

/// `s` equals the lower-case word `w` when letter case is ignored.
pub open spec fn eq_ignore_case(s: Seq<char>, w: Seq<char>) -> bool {
    s.len() == w.len() && forall|i: int| 0 <= i < s.len() ==> lower_ascii(#[trigger] s[i]) == w[i]
}

pub open spec fn is_special_float(s: Seq<char>) -> bool {
    eq_ignore_case(s, seq!['i', 'n', 'f']) || eq_ignore_case(
        s,
        seq!['i', 'n', 'f', 'i', 'n', 'i', 't', 'y'],
    ) || eq_ignore_case(s, seq!['n', 'a', 'n'])
}

/// The position of the first exponent marker (`e` or `E`), or the length.
pub open spec fn exponent_pos(s: Seq<char>) -> int
    decreases s.len(),
{
    if s.len() == 0 {
        0
    } else if s[0] == 'e' || s[0] == 'E' {
        0
    } else {
        1 + exponent_pos(s.drop_first())
    }
}

/// Digits with at most one decimal point and at least one digit.
pub open spec fn valid_mantissa(m: Seq<char>) -> bool {
    &&& forall|i: int| 0 <= i < m.len() ==> is_ascii_digit(#[trigger] m[i]) || m[i] == '.'
    &&& forall|i: int, j: int| 0 <= i < j < m.len() && #[trigger] m[i] == '.' ==> #[trigger] m[j] != '.'
    &&& exists|i: int| 0 <= i < m.len() && is_ascii_digit(#[trigger] m[i])
}

/// An optional sign and at least one digit.
pub open spec fn valid_exponent(x: Seq<char>) -> bool {
    let d = strip_sign(x);
    d.len() > 0 && all_digits(d)
}

/// Whether `f64::from_str` accepts the text: an optional sign, then
/// `inf`, `infinity` or `nan` in any case, or a decimal number with an
/// optional exponent.
pub open spec fn spec_is_float(s: Seq<char>) -> bool {
    let b = strip_sign(s);
    is_special_float(b) || {
        let p = exponent_pos(b);
        valid_mantissa(b.take(p)) && (p == b.len() || valid_exponent(b.skip(p + 1)))
    }
}

proof fn lemma_exponent_pos(s: Seq<char>)
    ensures
        0 <= exponent_pos(s) <= s.len(),
        forall|i: int| 0 <= i < exponent_pos(s) ==> #[trigger] s[i] != 'e' && s[i] != 'E',
        exponent_pos(s) < s.len() ==> (s[exponent_pos(s)] == 'e' || s[exponent_pos(s)] == 'E'),
    decreases s.len(),
{
    if s.len() > 0 && !(s[0] == 'e' || s[0] == 'E') {
        lemma_exponent_pos(s.drop_first());
        assert forall|i: int| 0 <= i < exponent_pos(s) implies #[trigger] s[i] != 'e' && s[i] != 'E' by {
            if i > 0 {
                assert(s[i] == s.drop_first()[i - 1]);
            }
        }
    }
}

fn lower_char(c: char) -> (r: char)
    ensures
        r == lower_ascii(c),
{
    if 'A' <= c && c <= 'Z' {
        ((c as u8) + 32) as char
    } else {
        c
    }
}

fn eq_ignore_case_exec(s: &[char], w: &[char]) -> (b: bool)
    ensures
        b == eq_ignore_case(s@, w@),
{
    if s.len() != w.len() {
        return false;
    }
    let mut i: usize = 0;
    while i < s.len()
        invariant
            s@.len() == w@.len(),
            i <= s@.len(),
            forall|j: int| 0 <= j < i ==> lower_ascii(#[trigger] s@[j]) == w@[j],
        decreases s@.len() - i,
    {
        if lower_char(s[i]) != w[i] {
            return false;
        }
        i += 1;
    }
    true
}

/// Whether `f64::from_str` accepts the text.
#[verifier::loop_isolation(false)]
pub fn is_float_literal(s: &[char]) -> (b: bool)
    ensures
        b == spec_is_float(s@),
{
    let start: usize = if s.len() > 0 && (s[0] == '+' || s[0] == '-') { 1 } else { 0 };
    let b: &[char] = if start == 1 { slice_skip(s, 1) } else { s };
    assert(b@ == strip_sign(s@));
    if eq_ignore_case_exec(b, &['i', 'n', 'f']) || eq_ignore_case_exec(b, &['i', 'n', 'f', 'i', 'n', 'i', 't', 'y'])
        || eq_ignore_case_exec(b, &['n', 'a', 'n']) {
        assert(is_special_float(b@));
        return true;
    }
    proof {
        lemma_exponent_pos(b@);
    }
    // find the exponent marker
    let mut p: usize = 0;
    while p < b.len() && b[p] != 'e' && b[p] != 'E'
        invariant
            p <= b@.len(),
            0 <= exponent_pos(b@) <= b@.len(),
            forall|i: int| 0 <= i < exponent_pos(b@) ==> #[trigger] b@[i] != 'e' && b@[i] != 'E',
            exponent_pos(b@) < b@.len() ==> (b@[exponent_pos(b@)] == 'e' || b@[exponent_pos(b@)] == 'E'),
            p <= exponent_pos(b@),
        decreases b@.len() - p,
    {
        p += 1;
    }
    assert(p == exponent_pos(b@));
    // mantissa
    let mut i: usize = 0;
    let mut seen_dot = false;
    let mut seen_digit = false;
    let ghost m = b@.take(p as int);
    while i < p
        invariant
            p <= b@.len(),
            m == b@.take(p as int),
            i <= p,
            forall|k: int| 0 <= k < i ==> is_ascii_digit(#[trigger] m[k]) || m[k] == '.',
            forall|k: int, j: int| 0 <= k < j < i && #[trigger] m[k] == '.' ==> #[trigger] m[j] != '.',
            seen_dot <==> exists|k: int| 0 <= k < i && m[k] == '.',
            seen_digit <==> exists|k: int| 0 <= k < i && is_ascii_digit(#[trigger] m[k]),
        decreases p - i,
    {
        let c = b[i];
        assert(m[i as int] == c);
        if c == '.' {
            if seen_dot {
                proof {
                    let k = choose|k: int| 0 <= k < i && m[k] == '.';
                    assert(m[k] == '.' && m[i as int] == '.');
                    assert(!valid_mantissa(m));
                }
                return false;
            }
            seen_dot = true;
        } else if '0' <= c && c <= '9' {
            seen_digit = true;
        } else {
            assert(!valid_mantissa(m));
            return false;
        }
        i += 1;
    }
    if !seen_digit {
        assert(!valid_mantissa(m));
        return false;
    }
    assert(valid_mantissa(m));
    if p == b.len() {
        return true;
    }
    // exponent
    let x: &[char] = slice_skip(b, p + 1);
    assert(x@ == b@.skip(p as int + 1));
    let xs: usize = if x.len() > 0 && (x[0] == '+' || x[0] == '-') { 1 } else { 0 };
    let d: &[char] = if xs == 1 { slice_skip(x, 1) } else { x };
    assert(d@ == strip_sign(x@));
    if d.len() == 0 {
        return false;
    }
    let mut k: usize = 0;
    while k < d.len()
        invariant
            k <= d@.len(),
            forall|j: int| 0 <= j < k ==> is_ascii_digit(#[trigger] d@[j]),
        decreases d@.len() - k,
    {
        if !('0' <= d[k] && d[k] <= '9') {
            assert(!all_digits(d@));
            return false;
        }
        k += 1;
    }
    true
}

/// The elements of a slice from position `n` on.
pub fn slice_skip<T>(s: &[T], n: usize) -> (r: &[T])
    requires
        n <= s@.len(),
    ensures
        r@ == s@.skip(n as int),
{
    let r = vstd::slice::slice_subrange(s, n, s.len());
    assert(r@ =~= s@.skip(n as int));
    r
}

// ---------------------------------------------------------------------------
// Address normalisation
// ---------------------------------------------------------------------------

/// An IPv4 address with each octet written without leading zeros; any other
/// text unchanged; `None` when four parts do not all parse as octets.
pub open spec fn spec_normalize_ip(s: Seq<char>) -> Option<Seq<char>> {
    if seq_contains_char(s, '.') {
        let parts = split_on(s, '.');
        if parts.len() == 4 {
            if forall|i: int| 0 <= i < 4 ==> #[trigger] spec_parse_unsigned(parts[i], 255) is Some {
                Some(
                    join_with(
                        parts.map_values(|p: Seq<char>| spec_decimal(spec_parse_unsigned(p, 255)->0)),
                        seq!['.'],
                    ),
                )
            } else {
                None
            }
        } else {
            Some(s)
        }
    } else {
        Some(s)
    }
}

/// Removes leading zeros from the octets of an IPv4 address.
#[verifier::loop_isolation(false)]
pub fn normalize_ip(s: &str) -> (r: Option<String>)
    ensures
        match r {
            Some(v) => spec_normalize_ip(s@) == Some(v@),
            None => spec_normalize_ip(s@) is None,
        },
{
    let cs = chars_of(s);
    if !contains_char(&cs, '.') {
        return Some(string_from_chars(&cs));
    }
    let parts = split_chars(&cs, '.');
    if parts.len() != 4 {
        return Some(string_from_chars(&cs));
    }
    let ghost ps = split_on(s@, '.');
    let mut out: Vec<Vec<char>> = Vec::new();
    let mut i: usize = 0;
    while i < 4
        invariant
            views(parts@) == ps,
            ps.len() == 4,
            i <= 4,
            out@.len() == i,
            forall|j: int| 0 <= j < i ==> #[trigger] spec_parse_unsigned(ps[j], 255) is Some,
            forall|j: int| 0 <= j < i ==> #[trigger] out@[j]@ == spec_decimal(spec_parse_unsigned(ps[j], 255)->0),
        decreases 4 - i,
    {
        assert(parts@[i as int]@ == ps[i as int]);
        match parse_unsigned(parts[i].as_slice(), 255) {
            Some(v) => {
                out.push(decimal_chars(v));
            },
            None => {
                return None;
            },
        }
        i += 1;
    }
    let dot: Vec<char> = vec!['.'];
    assert(dot@ =~= seq!['.']);
    let joined = join_chars(&out, dot.as_slice());
    assert(views(out@) =~= ps.map_values(|p: Seq<char>| spec_decimal(spec_parse_unsigned(p, 255)->0)));
    Some(string_from_chars(&joined))
}

pub open spec fn is_hex_char(c: char) -> bool {
    ('0' <= c && c <= '9') || ('a' <= c && c <= 'f') || ('A' <= c && c <= 'F')
}

/// The hexadecimal digits of `s`, in order and in lower case.
pub open spec fn hex_digits_lower(s: Seq<char>) -> Seq<char>
    decreases s.len(),
{
    if s.len() == 0 {
        Seq::empty()
    } else if is_hex_char(s.last()) {
        hex_digits_lower(s.drop_last()).push(lower_ascii(s.last()))
    } else {
        hex_digits_lower(s.drop_last())
    }
}

/// Twelve hex digits as six colon-separated pairs.
pub open spec fn mac_layout(h: Seq<char>) -> Seq<char> {
    Seq::new(17, |i: int| if i % 3 == 2 { ':' } else { h[(i / 3) * 2 + i % 3] })
}

/// A MAC address as lower-case colon-separated pairs, when the text holds
/// exactly twelve hexadecimal digits.
pub open spec fn spec_normalize_mac(s: Seq<char>) -> Option<Seq<char>> {
    let h = hex_digits_lower(s);
    if h.len() == 12 { Some(mac_layout(h)) } else { None }
}

/// Writes a MAC address as lower-case colon-separated pairs.
pub fn normalize_mac(s: &str) -> (r: Option<String>)
    ensures
        match r {
            Some(v) => spec_normalize_mac(s@) == Some(v@),
            None => spec_normalize_mac(s@) is None,
        },
{
    let cs = chars_of(s);
    let mut h: Vec<char> = Vec::new();
    let mut i: usize = 0;
    while i < cs.len()
        invariant
            cs@ == s@,
            i <= cs@.len(),
            h@ == hex_digits_lower(cs@.take(i as int)),
        decreases cs@.len() - i,
    {
        let c = cs[i];
        assert(cs@.take(i as int + 1).drop_last() =~= cs@.take(i as int));
        if ('0' <= c && c <= '9') || ('a' <= c && c <= 'f') || ('A' <= c && c <= 'F') {
            h.push(lower_char(c));
        }
        i += 1;
    }
    assert(cs@.take(cs@.len() as int) =~= cs@);
    if h.len() != 12 {
        return None;
    }
    let mut out: Vec<char> = Vec::new();
    let mut k: usize = 0;
    while k < 17
        invariant
            h@.len() == 12,
            k <= 17,
            out@ =~= mac_layout(h@).take(k as int),
        decreases 17 - k,
    {
        if k % 3 == 2 {
            out.push(':');
        } else {
            out.push(h[(k / 3) * 2 + k % 3]);
        }
        assert(out@ =~= mac_layout(h@).take(k as int + 1));
        k += 1;
    }
    assert(mac_layout(h@).take(17) =~= mac_layout(h@));
    Some(string_from_chars(&out))
}

// ---------------------------------------------------------------------------
// Attribute values
// ---------------------------------------------------------------------------

/// The value of a captured text under an attribute type.
pub open spec fn spec_attribute_from_str(s: Seq<char>, t: AttributeType) -> Option<AttrView> {
    match t {
        AttributeType::String => Some(AttrView::Str(s)),
        AttributeType::Ip => match spec_normalize_ip(s) {
            Some(n) => Some(AttrView::Str(n)),
            None => None,
        },
        AttributeType::Mac => match spec_normalize_mac(s) {
            Some(n) => Some(AttrView::Str(n)),
            None => None,
        },
        AttributeType::Int => match spec_parse_i64(s) {
            Some(v) => Some(AttrView::Int(v as i64)),
            None => None,
        },
        AttributeType::Float => if spec_is_float(s) { Some(AttrView::Float(s)) } else { None },
    }
}

impl AttributeValue {
    /// The text the value is matched by when it is used as a key.
    pub fn as_key_string(&self) -> (s: String)
        ensures
            s@ == spec_key_string(self@),
    {
        match self {
            AttributeValue::String(s) => s.clone(),
            AttributeValue::Int(i) => string_from_chars(&crate::text::decimal_i64_chars(*i)),
            AttributeValue::Float(s) => s.clone(),
        }
    }

    /// Reads a captured text as a value of the attribute type: IPs and MACs
    /// are normalised; `None` when the text does not fit the type.
    pub fn from_str(s: &str, attr_type: AttributeType) -> (r: Option<AttributeValue>)
        ensures
            match r {
                Some(v) => spec_attribute_from_str(s@, attr_type) == Some(v@),
                None => spec_attribute_from_str(s@, attr_type) is None,
            },
    {
        match attr_type {
            AttributeType::String => Some(AttributeValue::String(s.to_string())),
            AttributeType::Ip => match normalize_ip(s) {
                Some(n) => Some(AttributeValue::String(n)),
                None => None,
            },
            AttributeType::Mac => match normalize_mac(s) {
                Some(n) => Some(AttributeValue::String(n)),
                None => None,
            },
            AttributeType::Int => {
                let cs = chars_of(s);
                match parse_i64(&cs) {
                    Some(v) => Some(AttributeValue::Int(v)),
                    None => None,
                }
            },
            AttributeType::Float => {
                let cs = chars_of(s);
                if is_float_literal(&cs) {
                    Some(AttributeValue::Float(s.to_string()))
                } else {
                    None
                }
            },
        }
    }

    /// Whether two values are the same.
    pub fn same(&self, other: &AttributeValue) -> (b: bool)
        ensures
            b == (self@ == other@),
    {
        match (self, other) {
            (AttributeValue::String(a), AttributeValue::String(b)) => *a == *b,
            (AttributeValue::Int(a), AttributeValue::Int(b)) => *a == *b,
            (AttributeValue::Float(a), AttributeValue::Float(b)) => *a == *b,
            _ => false,
        }
    }
}

} // verus!

verus! {

/// An open fiber as the contracts see it.
pub struct FiberView {
    pub fiber_id: u128,
    pub fiber_type: Seq<char>,
    pub keys: Map<Seq<char>, Seq<char>>,
    pub attributes: Map<Seq<char>, AttrView>,
    pub first_activity: Timestamp,
    pub last_activity: Timestamp,
    pub log_ids: Seq<u128>,
}

/// An open (active) fiber, which can still receive logs.
pub struct OpenFiber {
    pub fiber_id: u128,
    pub fiber_type: String,
    /// Current keys: key name to value.
    pub keys: AssocMap<String, String>,
    /// All attributes: name to value.
    pub attributes: AssocMap<String, AttributeValue>,
    /// Timestamp of the first log.
    pub first_activity: Timestamp,
    /// Timestamp of the latest log.
    pub last_activity: Timestamp,
    /// The logs of the fiber, in the order they joined.
    pub log_ids: Vec<u128>,
}

impl View for OpenFiber {
    type V = FiberView;

    open spec fn view(&self) -> FiberView {
        FiberView {
            fiber_id: self.fiber_id,
            fiber_type: self.fiber_type@,
            keys: self.keys.map(),
            attributes: self.attributes.map(),
            first_activity: self.first_activity,
            last_activity: self.last_activity,
            log_ids: self.log_ids@,
        }
    }
}

/// The conflicts met when the attributes `b` (in order) are merged into the
/// map `a`: for each attribute present in both with different values, the
/// name, the value that lost and the value that won.
pub open spec fn merge_conflicts(
    a: Map<Seq<char>, AttrView>,
    b: Seq<(String, AttributeValue)>,
    b_later: bool,
) -> Seq<(Seq<char>, AttrView, AttrView)>
    decreases b.len(),
{
    if b.len() == 0 {
        Seq::empty()
    } else {
        let r = merge_conflicts(a, b.drop_last(), b_later);
        let k = b.last().0@;
        let v = b.last().1@;
        if a.dom().contains(k) && a[k] != v {
            r.push(if b_later { (k, a[k], v) } else { (k, v, a[k]) })
        } else {
            r
        }
    }
}

/// The attributes after a merge: on a clash the fiber with the later
/// latest log wins.
pub open spec fn merged_attributes(
    a: Map<Seq<char>, AttrView>,
    b: Map<Seq<char>, AttrView>,
    b_later: bool,
) -> Map<Seq<char>, AttrView> {
    if b_later { a.union_prefer_right(b) } else { b.union_prefer_right(a) }
}

pub open spec fn conflict_views(c: Seq<(String, AttributeValue, AttributeValue)>) -> Seq<(Seq<char>, AttrView, AttrView)> {
    c.map_values(|t: (String, AttributeValue, AttributeValue)| (t.0@, t.1@, t.2@))
}

impl OpenFiber {
    pub open spec fn wf(&self) -> bool {
        self.keys.wf() && self.attributes.wf()
    }

    /// A new fiber with no keys, attributes or logs, whose first and latest
    /// activity is `timestamp`.
    pub fn new(fiber_type: String, timestamp: Timestamp) -> (f: Self)
        ensures
            f.wf(),
            f@.fiber_type == fiber_type@,
            f@.keys == Map::<Seq<char>, Seq<char>>::empty(),
            f@.attributes == Map::<Seq<char>, AttrView>::empty(),
            f@.first_activity == timestamp,
            f@.last_activity == timestamp,
            f@.log_ids.len() == 0,
    {
        OpenFiber {
            fiber_id: crate::ids::new_id(),
            fiber_type,
            keys: AssocMap::new(),
            attributes: AssocMap::new(),
            first_activity: timestamp,
            last_activity: timestamp,
            log_ids: Vec::new(),
        }
    }

    /// A new fiber with the given id and no keys, attributes or logs, whose
    /// first and latest activity is `timestamp`.
    pub fn with_id(fiber_id: u128, fiber_type: String, timestamp: Timestamp) -> (f: Self)
        ensures
            f.wf(),
            f.fiber_id == fiber_id,
            f@.fiber_id == fiber_id,
            f@.fiber_type == fiber_type@,
            f@.keys == Map::<Seq<char>, Seq<char>>::empty(),
            f@.attributes == Map::<Seq<char>, AttrView>::empty(),
            f@.first_activity == timestamp,
            f@.last_activity == timestamp,
            f@.log_ids.len() == 0,
    {
        OpenFiber {
            fiber_id,
            fiber_type,
            keys: AssocMap::new(),
            attributes: AssocMap::new(),
            first_activity: timestamp,
            last_activity: timestamp,
            log_ids: Vec::new(),
        }
    }

    /// Adds a log to the fiber; its timestamp becomes the latest activity.
    pub fn add_log(&mut self, log_id: u128, timestamp: Timestamp)
        ensures
            final(self)@ == (FiberView { log_ids: old(self)@.log_ids.push(log_id), last_activity: timestamp, ..old(self)@ }),
            final(self).keys == old(self).keys,
            final(self).attributes == old(self).attributes,
    {
        self.log_ids.push(log_id);
        self.last_activity = timestamp;
    }

    /// Adds or updates a key.
    pub fn set_key(&mut self, name: String, value: String)
        requires
            old(self).wf(),
        ensures
            final(self).wf(),
            final(self)@ == (FiberView { keys: old(self)@.keys.insert(name@, value@), ..old(self)@ }),
            final(self).attributes == old(self).attributes,
    {
        self.keys.insert(name, value);
    }

    /// Removes a key, returning its value.
    pub fn remove_key(&mut self, name: &String) -> (r: Option<String>)
        requires
            old(self).wf(),
        ensures
            final(self).wf(),
            final(self)@ == (FiberView { keys: old(self)@.keys.remove(name@), ..old(self)@ }),
            final(self).attributes == old(self).attributes,
            match r {
                Some(v) => old(self)@.keys.dom().contains(name@) && old(self)@.keys[name@] == v@,
                None => !old(self)@.keys.dom().contains(name@),
            },
    {
        self.keys.remove(name)
    }

    /// Sets an attribute; returns the previous value when it differed.
    pub fn set_attribute(&mut self, name: String, value: AttributeValue) -> (r: Option<AttributeValue>)
        requires
            old(self).wf(),
        ensures
            final(self).wf(),
            final(self)@ == (FiberView { attributes: old(self)@.attributes.insert(name@, value@), ..old(self)@ }),
            final(self).keys == old(self).keys,
            match r {
                Some(o) => old(self)@.attributes.dom().contains(name@) && old(self)@.attributes[name@] == o@
                    && o@ != value@,
                None => !old(self)@.attributes.dom().contains(name@) || old(self)@.attributes[name@] == value@,
            },
    {
        let copy = value.clone();
        let old_value = self.attributes.insert(name, value);
        match old_value {
            Some(o) => {
                if !o.same(&copy) {
                    Some(o)
                } else {
                    None
                }
            },
            None => None,
        }
    }

    /// All keys as (name, value) pairs.
    pub fn key_pairs(&self) -> (v: Vec<(String, String)>)
        requires
            self.wf(),
        ensures
            v@.len() == self.keys.seq().len(),
            forall|k: int| 0 <= k < v@.len() ==> #[trigger] v@[k].0@ == self.keys.seq()[k].0@
                && v@[k].1@ == self.keys.seq()[k].1@,
    {
        let mut v: Vec<(String, String)> = Vec::new();
        let n = self.keys.entries.len();
        let mut i: usize = 0;
        while i < n
            invariant
                n == self.keys.entries@.len(),
                i <= n,
                v@.len() == i,
                forall|k: int| 0 <= k < i ==> #[trigger] v@[k].0@ == self.keys.seq()[k].0@
                    && v@[k].1@ == self.keys.seq()[k].1@,
            decreases n - i,
        {
            let e = &self.keys.entries[i];
            v.push((e.0.clone(), e.1.clone()));
            i += 1;
        }
        v
    }

    /// Merges another fiber into this one, which survives: keys of the other
    /// fiber are added (replacing equal names), attributes are merged with
    /// the fiber whose latest log is later winning a clash, the other's logs
    /// follow this one's, and the activity span covers both. Returns each
    /// attribute clash as (name, losing value, winning value).
    pub fn merge(&mut self, other: OpenFiber) -> (conflicts: Vec<(String, AttributeValue, AttributeValue)>)
        requires
            old(self).wf(),
            other.wf(),
        ensures
            final(self).wf(),
            final(self)@.fiber_id == old(self)@.fiber_id,
            final(self)@.fiber_type == old(self)@.fiber_type,
            final(self)@.keys == old(self)@.keys.union_prefer_right(other@.keys),
            final(self)@.attributes == merged_attributes(
                old(self)@.attributes,
                other@.attributes,
                other.last_activity > old(self).last_activity,
            ),
            final(self)@.log_ids == old(self)@.log_ids + other@.log_ids,
            final(self)@.first_activity == if other.first_activity < old(self).first_activity {
                other.first_activity
            } else {
                old(self).first_activity
            },
            final(self)@.last_activity == if other.last_activity > old(self).last_activity {
                other.last_activity
            } else {
                old(self).last_activity
            },
            conflict_views(conflicts@) == merge_conflicts(
                old(self)@.attributes,
                other.attributes.seq(),
                other.last_activity > old(self).last_activity,
            ),
    {
        let later = other.last_activity > self.last_activity;
        let ghost a_keys = self.keys.map();
        let ghost a_attrs = self.attributes.map();
        let ghost bk = other.keys.seq();
        let ghost ba = other.attributes.seq();
        // keys
        let nk = other.keys.entries.len();
        let mut i: usize = 0;
        while i < nk
            invariant
                nk == other.keys.entries@.len(),
                bk == other.keys.seq(),
                i <= nk,
                self.keys.wf(),
                self.keys.map() == a_keys.union_prefer_right(to_map(bk.take(i as int))),
                self.attributes == old(self).attributes,
                self.fiber_id == old(self).fiber_id,
                self.fiber_type == old(self).fiber_type,
                self.first_activity == old(self).first_activity,
                self.last_activity == old(self).last_activity,
                self.log_ids == old(self).log_ids,
                a_attrs == old(self)@.attributes,
                later == (other.last_activity > old(self).last_activity),
            decreases nk - i,
        {
            let e = &other.keys.entries[i];
            self.keys.insert(e.0.clone(), e.1.clone());
            assert(bk.take(i as int + 1).drop_last() =~= bk.take(i as int));
            assert(self.keys.map() =~= a_keys.union_prefer_right(to_map(bk.take(i as int + 1))));
            i += 1;
        }
        assert(bk.take(nk as int) =~= bk);
        // attributes
        let mut conflicts: Vec<(String, AttributeValue, AttributeValue)> = Vec::new();
        let na = other.attributes.entries.len();
        let mut j: usize = 0;
        while j < na
            invariant
                na == other.attributes.entries@.len(),
                ba == other.attributes.seq(),
                unique_keys(ba),
                j <= na,
                self.attributes.wf(),
                self.keys.wf(),
                self.keys.map() == old(self)@.keys.union_prefer_right(other@.keys),
                self.fiber_id == old(self).fiber_id,
                self.fiber_type == old(self).fiber_type,
                self.first_activity == old(self).first_activity,
                self.last_activity == old(self).last_activity,
                self.log_ids == old(self).log_ids,
                a_attrs == old(self)@.attributes,
                later == (other.last_activity > old(self).last_activity),
                self.attributes.map() == merged_attributes(a_attrs, to_map(ba.take(j as int)), later),
                conflict_views(conflicts@) == merge_conflicts(a_attrs, ba.take(j as int), later),
            decreases na - j,
        {
            let e = &other.attributes.entries[j];
            let ghost k = e.0@;
            let ghost t = ba.take(j as int + 1);
            assert(t.drop_last() =~= ba.take(j as int));
            assert(t.last() == ba[j as int]);
            proof {
                // the key has not been merged yet
                assert(!has_key(ba.take(j as int), k)) by {
                    if has_key(ba.take(j as int), k) {
                        let q = choose|q: int| 0 <= q < ba.take(j as int).len() && #[trigger] ba.take(j as int)[q].0@ == k;
                        assert(ba[q].0@ == ba[j as int].0@);
                    }
                }
                crate::assoc::lemma_to_map_dom(ba.take(j as int), k);
            }
            let ghost before = self.attributes.map();
            match self.attributes.get(&e.0) {
                Some(sv) => {
                    assert(a_attrs.dom().contains(k) && a_attrs[k] == sv@);
                    if !sv.same(&e.1) {
                        if later {
                            conflicts.push((e.0.clone(), sv.clone(), e.1.clone()));
                            self.attributes.insert(e.0.clone(), e.1.clone());
                        } else {
                            conflicts.push((e.0.clone(), e.1.clone(), sv.clone()));
                        }
                    }
                },
                None => {
                    assert(!a_attrs.dom().contains(k));
                    self.attributes.insert(e.0.clone(), e.1.clone());
                },
            }
            assert(self.attributes.map() =~= merged_attributes(a_attrs, to_map(t), later));
            assert(conflict_views(conflicts@) =~= merge_conflicts(a_attrs, t, later));
            j += 1;
        }
        assert(ba.take(na as int) =~= ba);
        // logs
        let nl = other.log_ids.len();
        let ghost base = self.log_ids@;
        let mut m: usize = 0;
        while m < nl
            invariant
                nl == other.log_ids@.len(),
                m <= nl,
                self.log_ids@ == base + other.log_ids@.take(m as int),
                base == old(self).log_ids@,
                self.keys.wf(),
                self.attributes.wf(),
                self.keys.map() == old(self)@.keys.union_prefer_right(other@.keys),
                self.attributes.map() == merged_attributes(old(self)@.attributes, other@.attributes, later),
                conflict_views(conflicts@) == merge_conflicts(old(self)@.attributes, other.attributes.seq(), later),
                self.fiber_id == old(self).fiber_id,
                self.fiber_type == old(self).fiber_type,
                self.first_activity == old(self).first_activity,
                self.last_activity == old(self).last_activity,
                later == (other.last_activity > old(self).last_activity),
            decreases nl - m,
        {
            self.log_ids.push(other.log_ids[m]);
            assert(self.log_ids@ =~= base + other.log_ids@.take(m as int + 1));
            m += 1;
        }
        assert(other.log_ids@.take(nl as int) =~= other.log_ids@);
        if other.first_activity < self.first_activity {
            self.first_activity = other.first_activity;
        }
        if other.last_activity > self.last_activity {
            self.last_activity = other.last_activity;
        }
        conflicts
    }
}

} // verus!

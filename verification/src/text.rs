use vstd::prelude::*;

verus! {

/// Appends one character to a string.
///
/// Trusted: `String::push` appends `c` at the end of the string.
#[verifier::external_body]
pub(crate) fn push_char(s: &mut String, c: char)
    ensures
        final(s)@ == old(s)@.push(c),
{
    s.push(c)
}

/// The characters of a string slice, in order.
pub fn chars_of(s: &str) -> (v: Vec<char>)
    ensures
        v@ == s@,
{
    let mut v: Vec<char> = Vec::new();
    for c in it: s.chars()
        invariant
            v@ == it.seq().take(it.index() as int),
    {
        v.push(c);
    }
    v
}

/// The concatenation of two strings.
pub fn concat_str(a: &str, b: &str) -> (r: String)
    ensures
        r@ == a@ + b@,
{
    let mut v = chars_of(a);
    let w = chars_of(b);
    let ghost va = v@;
    let mut i: usize = 0;
    while i < w.len()
        invariant
            i <= w@.len(),
            v@ == va + w@.take(i as int),
        decreases w@.len() - i,
    {
        v.push(w[i]);
        assert(v@ =~= va + w@.take(i as int + 1));
        i += 1;
    }
    assert(w@.take(w@.len() as int) =~= w@);
    string_from_chars(v.as_slice())
}

/// Appends the characters of a string slice.
pub fn append_str(out: &mut Vec<char>, s: &str)
    ensures
        final(out)@ == old(out)@ + s@,
{
    let v = chars_of(s);
    let ghost start = out@;
    let mut i: usize = 0;
    while i < v.len()
        invariant
            i <= v@.len(),
            v@ == s@,
            out@ == start + v@.take(i as int),
        decreases v@.len() - i,
    {
        out.push(v[i]);
        assert(out@ =~= start + v@.take(i as int + 1));
        i += 1;
    }
    assert(v@.take(v@.len() as int) =~= v@);
}

/// Whether two string slices hold the same characters.
pub fn str_eq(a: &str, b: &str) -> (r: bool)
    ensures
        r == (a@ == b@),
{
    let ca = chars_of(a);
    let cb = chars_of(b);
    chars_equal(ca.as_slice(), cb.as_slice())
}

/// Builds a string from a sequence of characters.
pub fn string_from_chars(v: &[char]) -> (s: String)
    ensures
        s@ == v@,
{
    let mut s = String::new();
    let mut i: usize = 0;
    while i < v.len()
        invariant
            i <= v.len(),
            s@ == v@.take(i as int),
        decreases v.len() - i,
    {
        push_char(&mut s, v[i]);
        assert(v@.take(i as int).push(v@[i as int]) =~= v@.take(i as int + 1));
        i += 1;
    }
    assert(v@.take(v.len() as int) =~= v@);
    s
}

} // verus!

verus! {

pub open spec fn is_ascii_digit(c: char) -> bool {
    '0' <= c && c <= '9'
}

pub open spec fn all_digits(s: Seq<char>) -> bool {
    forall|i: int| 0 <= i < s.len() ==> is_ascii_digit(#[trigger] s[i])
}

pub open spec fn digit_value(c: char) -> nat {
    (c as nat - '0' as nat) as nat
}

/// The number a string of decimal digits denotes.
pub open spec fn digits_value(s: Seq<char>) -> nat
    decreases s.len(),
{
    if s.len() == 0 {
        0
    } else {
        digits_value(s.drop_last()) * 10 + digit_value(s.last())
    }
}

/// What Rust's `from_str` gives for an unsigned integer type whose largest
/// value is `max`: an optional `+`, then at least one decimal digit, and a
/// value that fits.
pub open spec fn spec_parse_unsigned(s: Seq<char>, max: nat) -> Option<nat> {
    let d = if s.len() > 0 && s[0] == '+' { s.drop_first() } else { s };
    if d.len() > 0 && all_digits(d) && digits_value(d) <= max {
        Some(digits_value(d))
    } else {
        None
    }
}

/// What Rust's `i64::from_str` gives: an optional sign, then at least one
/// decimal digit, and a value within range.
pub open spec fn spec_parse_i64(s: Seq<char>) -> Option<int> {
    if s.len() > 0 && s[0] == '-' {
        let d = s.drop_first();
        if d.len() > 0 && all_digits(d) && digits_value(d) <= 9223372036854775808 {
            Some(-(digits_value(d) as int))
        } else {
            None
        }
    } else {
        match spec_parse_unsigned(s, 9223372036854775807) {
            Some(v) => Some(v as int),
            None => None,
        }
    }
}

proof fn lemma_digits_value_prefix(s: Seq<char>, i: int)
    requires
        all_digits(s),
        0 <= i <= s.len(),
    ensures
        digits_value(s.take(i)) <= digits_value(s),
    decreases s.len(),
{
    if i < s.len() {
        let t = s.drop_last();
        assert(all_digits(t)) by {
            assert forall|k: int| 0 <= k < t.len() implies is_ascii_digit(#[trigger] t[k]) by {
                assert(t[k] == s[k]);
            }
        }
        lemma_digits_value_prefix(t, i);
        assert(t.take(i) =~= s.take(i));
    } else {
        assert(s.take(i) =~= s);
    }
}

/// The value of the decimal digits of `s` from `start` on, when it is at most `max`.
fn digits_value_bounded(s: &[char], start: usize, max: u64) -> (r: Option<u64>)
    requires
        start <= s@.len(),
    ensures
        ({
            let d = s@.skip(start as int);
            match r {
                Some(v) => d.len() > 0 && all_digits(d) && digits_value(d) <= max && v == digits_value(d),
                None => !(d.len() > 0 && all_digits(d) && digits_value(d) <= max),
            }
        }),
{
    let ghost d = s@.skip(start as int);
    if start >= s.len() {
        return None;
    }
    let mut v: u64 = 0;
    let mut i: usize = start;
    while i < s.len()
        invariant
            start <= i <= s@.len(),
            d == s@.skip(start as int),
            all_digits(d.take(i - start)),
            v == digits_value(d.take(i - start)),
            v <= max,
        decreases s@.len() - i,
    {
        let c = s[i];
        let ghost t = d.take(i - start + 1);
        assert(t.drop_last() =~= d.take(i - start));
        assert(t.last() == c);
        if !('0' <= c && c <= '9') {
            assert(!all_digits(d)) by {
                assert(d[i - start] == c);
            }
            return None;
        }
        let dv = (c as u32 - '0' as u32) as u64;
        if dv > max || v > (max - dv) / 10 {
            proof {
                assert(digits_value(t) == v * 10 + dv);
                if dv <= max {
                    assert(v * 10 + dv > max) by (nonlinear_arith)
                        requires v > (max - dv) / 10, dv <= max;
                }
                assert(all_digits(t)) by {
                    assert forall|k: int| 0 <= k < t.len() implies is_ascii_digit(#[trigger] t[k]) by {
                        if k < t.len() - 1 { assert(t[k] == d.take(i - start)[k]); }
                    }
                }
                if all_digits(d) {
                    lemma_digits_value_prefix(d, i - start + 1);
                }
            }
            return None;
        }
        proof {
            assert(v * 10 + dv <= max) by (nonlinear_arith)
                requires v <= (max - dv) / 10, dv <= 9, max >= 0;
        }
        v = v * 10 + dv;
        assert(all_digits(t)) by {
            assert forall|k: int| 0 <= k < t.len() implies is_ascii_digit(#[trigger] t[k]) by {
                if k < t.len() - 1 { assert(t[k] == d.take(i - start)[k]); }
            }
        }
        i += 1;
    }
    assert(d.take(i - start) =~= d);
    Some(v)
}

/// Rust's `from_str` for an unsigned integer type whose largest value is `max`.
pub fn parse_unsigned(s: &[char], max: u64) -> (r: Option<u64>)
    ensures
        match r {
            Some(v) => spec_parse_unsigned(s@, max as nat) == Some(v as nat),
            None => spec_parse_unsigned(s@, max as nat) is None,
        },
{
    let start: usize = if s.len() > 0 && s[0] == '+' { 1 } else { 0 };
    assert(s@.skip(start as int) == if s@.len() > 0 && s@[0] == '+' { s@.drop_first() } else { s@ });
    digits_value_bounded(s, start, max)
}

/// Rust's `i64::from_str`.
pub fn parse_i64(s: &[char]) -> (r: Option<i64>)
    ensures
        match r {
            Some(v) => spec_parse_i64(s@) == Some(v as int),
            None => spec_parse_i64(s@) is None,
        },
{
    if s.len() > 0 && s[0] == '-' {
        assert(s@.skip(1) =~= s@.drop_first());
        match digits_value_bounded(s, 1, 9223372036854775808) {
            Some(v) => {
                if v == 9223372036854775808 {
                    Some(i64::MIN)
                } else {
                    Some(-(v as i64))
                }
            },
            None => None,
        }
    } else {
        match parse_unsigned(s, 9223372036854775807) {
            Some(v) => Some(v as i64),
            None => None,
        }
    }
}

pub open spec fn digit_char(d: nat) -> char {
    if d == 0 { '0' } else if d == 1 { '1' } else if d == 2 { '2' } else if d == 3 { '3' }
    else if d == 4 { '4' } else if d == 5 { '5' } else if d == 6 { '6' } else if d == 7 { '7' }
    else if d == 8 { '8' } else { '9' }
}

/// The character of a decimal digit.
pub fn digit_to_char(d: u64) -> (c: char)
    requires
        d < 10,
    ensures
        c == digit_char(d as nat),
{
    if d == 0 { '0' } else if d == 1 { '1' } else if d == 2 { '2' } else if d == 3 { '3' }
    else if d == 4 { '4' } else if d == 5 { '5' } else if d == 6 { '6' } else if d == 7 { '7' }
    else if d == 8 { '8' } else { '9' }
}

/// The decimal digits of a natural number, most significant first.
pub open spec fn spec_decimal(n: nat) -> Seq<char>
    decreases n,
{
    if n < 10 {
        seq![digit_char(n)]
    } else {
        spec_decimal(n / 10).push(digit_char(n % 10))
    }
}

/// How Rust displays an `i64`.
pub open spec fn spec_decimal_i64(n: int) -> Seq<char> {
    if n < 0 {
        seq!['-'] + spec_decimal((-n) as nat)
    } else {
        spec_decimal(n as nat)
    }
}

proof fn lemma_digit_char(d: nat)
    requires
        d < 10,
    ensures
        is_ascii_digit(digit_char(d)),
        digit_value(digit_char(d)) == d,
{
}

/// The decimal text of a number is a non-empty run of digits that reads
/// back as the number.
pub proof fn lemma_decimal_digits(n: nat)
    ensures
        spec_decimal(n).len() > 0,
        all_digits(spec_decimal(n)),
        digits_value(spec_decimal(n)) == n,
    decreases n,
{
    if n >= 10 {
        lemma_decimal_digits(n / 10);
        lemma_digit_char(n % 10);
        let s = spec_decimal(n);
        assert(s.drop_last() =~= spec_decimal(n / 10));
        assert(s.last() == digit_char(n % 10));
        assert(digits_value(s) == digits_value(s.drop_last()) * 10 + digit_value(s.last()));
        assert(n == (n / 10) * 10 + n % 10);
        assert forall|k: int| 0 <= k < s.len() implies is_ascii_digit(#[trigger] s[k]) by {
            if k < s.len() - 1 {
                assert(s[k] == spec_decimal(n / 10)[k]);
            }
        }
    } else {
        lemma_digit_char(n);
        let s = spec_decimal(n);
        assert(s.drop_last() =~= Seq::<char>::empty());
        assert(digits_value(s) == digits_value(s.drop_last()) * 10 + digit_value(s.last()));
    }
}

/// Appends the decimal digits of `n`.
pub fn push_decimal(out: &mut Vec<char>, n: u64)
    ensures
        final(out)@ == old(out)@ + spec_decimal(n as nat),
    decreases n,
{
    if n >= 10 {
        push_decimal(out, n / 10);
    }
    out.push(digit_to_char(n % 10));
}

/// The decimal digits of `n`.
pub fn decimal_chars(n: u64) -> (v: Vec<char>)
    ensures
        v@ == spec_decimal(n as nat),
{
    let mut v = Vec::new();
    push_decimal(&mut v, n);
    assert(v@ =~= spec_decimal(n as nat));
    v
}

/// How Rust displays an `i64`.
pub fn decimal_i64_chars(n: i64) -> (v: Vec<char>)
    ensures
        v@ == spec_decimal_i64(n as int),
{
    let mut v = Vec::new();
    if n < 0 {
        v.push('-');
        let m: u64 = if n == i64::MIN { 9223372036854775808 } else { (-n) as u64 };
        push_decimal(&mut v, m);
    } else {
        push_decimal(&mut v, n as u64);
    }
    v
}

} // verus!

verus! {

/// The pieces of `s` between occurrences of `c` (as `str::split` with a char
/// gives them: one more piece than there are separators).
pub open spec fn split_on(s: Seq<char>, c: char) -> Seq<Seq<char>>
    decreases s.len(),
{
    if s.len() == 0 {
        seq![Seq::empty()]
    } else {
        let r = split_on(s.drop_last(), c);
        if s.last() == c {
            r.push(Seq::empty())
        } else {
            r.update(r.len() - 1, r.last().push(s.last()))
        }
    }
}

pub proof fn lemma_split_on_len(s: Seq<char>, c: char)
    ensures
        split_on(s, c).len() >= 1,
    decreases s.len(),
{
    if s.len() > 0 {
        lemma_split_on_len(s.drop_last(), c);
    }
}

/// The pieces joined with `sep` between consecutive pieces.
pub open spec fn join_with(parts: Seq<Seq<char>>, sep: Seq<char>) -> Seq<char>
    decreases parts.len(),
{
    if parts.len() == 0 {
        Seq::empty()
    } else if parts.len() == 1 {
        parts[0]
    } else {
        join_with(parts.drop_last(), sep) + sep + parts.last()
    }
}

pub open spec fn views(v: Seq<Vec<char>>) -> Seq<Seq<char>> {
    v.map_values(|x: Vec<char>| x@)
}

/// Splits at each occurrence of `c`.
pub fn split_chars(s: &[char], c: char) -> (parts: Vec<Vec<char>>)
    ensures
        views(parts@) == split_on(s@, c),
{
    let mut parts: Vec<Vec<char>> = Vec::new();
    let mut cur: Vec<char> = Vec::new();
    let mut i: usize = 0;
    while i < s.len()
        invariant
            i <= s@.len(),
            views(parts@).push(cur@) == split_on(s@.take(i as int), c),
        decreases s@.len() - i,
    {
        let ghost t = s@.take(i as int + 1);
        assert(t.drop_last() =~= s@.take(i as int));
        let ghost r = split_on(s@.take(i as int), c);
        if s[i] == c {
            let done = cur;
            parts.push(done);
            cur = Vec::new();
            assert(views(parts@) =~= r);
            assert(views(parts@).push(cur@) =~= split_on(t, c));
        } else {
            cur.push(s[i]);
            assert(views(parts@).push(cur@) =~= r.update(r.len() - 1, r.last().push(s@[i as int])));
        }
        i += 1;
    }
    assert(s@.take(s@.len() as int) =~= s@);
    parts.push(cur);
    assert(views(parts@) =~= split_on(s@, c));
    parts
}


/// The line without one trailing carriage return.
pub open spec fn strip_cr(l: Seq<char>) -> Seq<char> {
    if l.len() > 0 && l.last() == '\r' { l.drop_last() } else { l }
}

/// `str::lines`: the pieces between newlines, without a final empty piece;
/// a piece that a newline ends loses one carriage return before it.
pub open spec fn str_lines(s: Seq<char>) -> Seq<Seq<char>> {
    let parts = split_on(s, '\n');
    let kept = if parts.last().len() == 0 { parts.drop_last() } else { parts };
    Seq::new(kept.len(), |i: int| if i < parts.len() - 1 { strip_cr(kept[i]) } else { kept[i] })
}

/// The lines of a text, as `str::lines` gives them.
pub fn lines_of(s: &[char]) -> (r: Vec<Vec<char>>)
    ensures
        views(r@) == str_lines(s@),
{
    let parts = split_chars(s, '\n');
    proof {
        lemma_split_on_len(s@, '\n');
    }
    let n = parts.len();
    let last_empty = parts[n - 1].len() == 0;
    let m = if last_empty { n - 1 } else { n };
    let ghost kept = if views(parts@).last().len() == 0 { views(parts@).drop_last() } else { views(parts@) };
    assert(kept.len() == m);
    let mut out: Vec<Vec<char>> = Vec::new();
    let mut i: usize = 0;
    while i < m
        invariant
            m <= parts@.len() == n,
            kept.len() == m,
            forall|q: int| 0 <= q < m ==> kept[q] == #[trigger] views(parts@)[q],
            i <= m,
            views(out@) == Seq::new(i as nat, |q: int| if q < n - 1 { strip_cr(kept[q]) } else { kept[q] }),
        decreases m - i,
    {
        let p = &parts[i];
        let mut line: Vec<char> = Vec::new();
        let k = p.len();
        let end = if k > 0 && p[k - 1] == '\r' && i < n - 1 { k - 1 } else { k };
        let mut j: usize = 0;
        while j < end
            invariant
                end <= p@.len(),
                j <= end,
                line@ == p@.take(j as int),
            decreases end - j,
        {
            line.push(p[j]);
            assert(line@ =~= p@.take(j as int + 1));
            j += 1;
        }
        assert(views(parts@)[i as int] == p@);
        assert(kept[i as int] == p@);
        assert(line@ =~= (if (i as int) < n - 1 { strip_cr(kept[i as int]) } else { kept[i as int] }));
        let ghost o0 = out@;
        let ghost lv = line@;
        out.push(line);
        assert(views(out@) =~= views(o0).push(lv));
        assert(views(out@) =~= Seq::new((i + 1) as nat, |q: int| if q < n - 1 { strip_cr(kept[q]) } else { kept[q] }));
        i += 1;
    }
    assert(views(out@) =~= str_lines(s@));
    out
}

/// Joins the pieces with `sep` between consecutive pieces.
pub fn join_chars(parts: &Vec<Vec<char>>, sep: &[char]) -> (out: Vec<char>)
    ensures
        out@ == join_with(views(parts@), sep@),
{
    let mut out: Vec<char> = Vec::new();
    let mut i: usize = 0;
    while i < parts.len()
        invariant
            i <= parts@.len(),
            out@ == join_with(views(parts@).take(i as int), sep@),
        decreases parts@.len() - i,
    {
        let ghost t = views(parts@).take(i as int + 1);
        assert(t.drop_last() =~= views(parts@).take(i as int));
        if i > 0 {
            let mut k: usize = 0;
            let ghost base = out@;
            while k < sep.len()
                invariant
                    k <= sep@.len(),
                    out@ == base + sep@.take(k as int),
                decreases sep@.len() - k,
            {
                out.push(sep[k]);
                assert(out@ =~= base + sep@.take(k as int + 1));
                k += 1;
            }
            assert(sep@.take(sep@.len() as int) =~= sep@);
        }
        let p = &parts[i];
        let ghost base2 = out@;
        let mut k: usize = 0;
        while k < p.len()
            invariant
                k <= p@.len(),
                out@ == base2 + p@.take(k as int),
            decreases p@.len() - k,
        {
            out.push(p[k]);
            assert(out@ =~= base2 + p@.take(k as int + 1));
            k += 1;
        }
        assert(p@.take(p@.len() as int) =~= p@);
        if i == 0 {
            assert(out@ =~= join_with(t, sep@));
        } else {
            assert(out@ =~= join_with(t, sep@));
        }
        i += 1;
    }
    assert(views(parts@).take(parts@.len() as int) =~= views(parts@));
    out
}

pub open spec fn seq_contains_char(s: Seq<char>, c: char) -> bool {
    exists|i: int| 0 <= i < s.len() && s[i] == c
}

pub fn contains_char(s: &[char], c: char) -> (b: bool)
    ensures
        b == seq_contains_char(s@, c),
{
    let mut i: usize = 0;
    while i < s.len()
        invariant
            i <= s@.len(),
            forall|j: int| 0 <= j < i ==> s@[j] != c,
        decreases s@.len() - i,
    {
        if s[i] == c {
            return true;
        }
        i += 1;
    }
    false
}

/// Whether `p` occurs in `s` starting at position `at`.
pub open spec fn occurs_at(s: Seq<char>, p: Seq<char>, at: int) -> bool {
    0 <= at && at + p.len() <= s.len() && s.subrange(at, at + p.len()) == p
}

/// Whether `p` occurs anywhere in `s` (`str::contains`).
pub open spec fn seq_contains(s: Seq<char>, p: Seq<char>) -> bool {
    exists|at: int| occurs_at(s, p, at)
}

pub fn matches_at(s: &[char], p: &[char], at: usize) -> (b: bool)
    ensures
        b == occurs_at(s@, p@, at as int),
{
    if at > s.len() || p.len() > s.len() - at {
        return false;
    }
    let mut k: usize = 0;
    while k < p.len()
        invariant
            at <= s@.len(),
            at + p@.len() <= s@.len(),
            k <= p@.len(),
            forall|j: int| 0 <= j < k ==> s@[at + j] == p@[j],
        decreases p@.len() - k,
    {
        assert(at + k < s@.len());
        assert(s@.len() == s.len());
        if s[at + k] != p[k] {
            assert(s@.subrange(at as int, at + p@.len())[k as int] != p@[k as int]);
            return false;
        }
        k += 1;
    }
    assert(s@.subrange(at as int, at + p@.len()) =~= p@);
    true
}

/// `str::contains` with a string pattern.
pub fn contains_seq(s: &[char], p: &[char]) -> (b: bool)
    ensures
        b == seq_contains(s@, p@),
{
    let mut at: usize = 0;
    while at < s.len()
        invariant
            at <= s@.len(),
            forall|j: int| 0 <= j < at ==> !occurs_at(s@, p@, j),
        decreases s@.len() - at,
    {
        if matches_at(s, p, at) {
            return true;
        }
        at += 1;
    }
    if matches_at(s, p, at) {
        return true;
    }
    assert forall|j: int| !occurs_at(s@, p@, j) by {
        if 0 <= j && j <= at {
        }
    }
    false
}


/// The character sequences of a list of strings.
pub open spec fn string_views(v: Seq<String>) -> Seq<Seq<char>> {
    v.map_values(|s: String| s@)
}

pub proof fn lemma_string_views_push(s: Seq<String>, x: String)
    ensures
        string_views(s.push(x)) == string_views(s).push(x@),
{
    assert(string_views(s.push(x)) =~= string_views(s).push(x@));
}

pub proof fn lemma_string_views_drop_last(s: Seq<String>)
    requires
        s.len() > 0,
    ensures
        string_views(s.drop_last()) == string_views(s).drop_last(),
{
    assert(string_views(s.drop_last()) =~= string_views(s).drop_last());
}

/// Whether the list holds a string equal to `s`.
pub fn contains_string(v: &Vec<String>, s: &String) -> (b: bool)
    ensures
        b == string_views(v@).contains(s@),
{
    let mut i: usize = 0;
    while i < v.len()
        invariant
            i <= v@.len(),
            forall|j: int| 0 <= j < i ==> v@[j]@ != s@,
        decreases v@.len() - i,
    {
        if v[i] == *s {
            assert(string_views(v@)[i as int] == s@);
            return true;
        }
        i += 1;
    }
    false
}

/// A copy of a list of strings.
pub fn clone_strings(v: &Vec<String>) -> (r: Vec<String>)
    ensures
        string_views(r@) == string_views(v@),
{
    let mut r: Vec<String> = Vec::new();
    let mut i: usize = 0;
    while i < v.len()
        invariant
            i <= v@.len(),
            string_views(r@) == string_views(v@).take(i as int),
        decreases v@.len() - i,
    {
        let ghost r0 = r@;
        let c = v[i].clone();
        r.push(c);
        proof {
            lemma_string_views_push(r0, c);
        }
        assert(string_views(r@) =~= string_views(v@).take(i as int + 1));
        i += 1;
    }
    assert(string_views(v@).take(v@.len() as int) =~= string_views(v@));
    r
}

/// Whether two character sequences are equal.
pub fn chars_equal(a: &[char], b: &[char]) -> (r: bool)
    ensures
        r == (a@ == b@),
{
    if a.len() != b.len() {
        return false;
    }
    let r = matches_at(a, b, 0);
    assert(a@.subrange(0, b@.len() as int) =~= a@);
    r
}

/// `str::starts_with` with a string pattern.
pub fn starts_with_seq(s: &[char], p: &[char]) -> (b: bool)
    ensures
        b == occurs_at(s@, p@, 0),
{
    matches_at(s, p, 0)
}

} // verus!

verus! {

/// `str::replace`: every non-overlapping occurrence of `p`, left to right,
/// replaced by `r` (for a non-empty `p`).
pub open spec fn replace_all(s: Seq<char>, p: Seq<char>, r: Seq<char>) -> Seq<char>
    decreases s.len(),
{
    if p.len() == 0 || s.len() < p.len() {
        s
    } else if s.take(p.len() as int) == p {
        r + replace_all(s.skip(p.len() as int), p, r)
    } else {
        seq![s[0]] + replace_all(s.drop_first(), p, r)
    }
}

/// Replaces every non-overlapping occurrence of `p` by `r`.
pub fn replace_chars(s: &[char], p: &[char], r: &[char]) -> (out: Vec<char>)
    requires
        p@.len() > 0,
    ensures
        out@ == replace_all(s@, p@, r@),
{
    let mut out: Vec<char> = Vec::new();
    let mut i: usize = 0;
    assert(s@.skip(0) =~= s@);
    while i < s.len()
        invariant
            i <= s@.len(),
            p@.len() > 0,
            out@ + replace_all(s@.skip(i as int), p@, r@) == replace_all(s@, p@, r@),
        decreases s@.len() - i,
    {
        let ghost rest = s@.skip(i as int);
        if matches_at(s, p, i) {
            assert(rest.take(p@.len() as int) =~= s@.subrange(i as int, i + p@.len()));
            assert(rest.skip(p@.len() as int) =~= s@.skip(i + p@.len()));
            let mut k: usize = 0;
            let ghost base = out@;
            while k < r.len()
                invariant
                    k <= r@.len(),
                    out@ == base + r@.take(k as int),
                decreases r@.len() - k,
            {
                out.push(r[k]);
                assert(out@ =~= base + r@.take(k as int + 1));
                k += 1;
            }
            assert(r@.take(r@.len() as int) =~= r@);
            assert(out@ + replace_all(s@.skip(i + p@.len()), p@, r@) =~= base + replace_all(rest, p@, r@));
            i = i + p.len();
        } else {
            proof {
                if rest.len() >= p@.len() {
                    assert(rest.take(p@.len() as int) =~= s@.subrange(i as int, i + p@.len()));
                }
                assert(rest.drop_first() =~= s@.skip(i as int + 1));
                assert(rest[0] == s@[i as int]);
            }
            let ghost base = out@;
            out.push(s[i]);
            assert(out@ + replace_all(s@.skip(i as int + 1), p@, r@) =~= base + replace_all(rest, p@, r@));
            i += 1;
        }
    }
    assert(s@.skip(i as int) =~= Seq::<char>::empty());
    assert(out@ + Seq::<char>::empty() =~= out@);
    out
}

} // verus!

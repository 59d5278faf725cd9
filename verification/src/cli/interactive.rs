use vstd::prelude::*;
use crate::matcher::{CompiledRegex, opt_views, regex_accepts, regex_captures, regex_error_message, regex_group_names};
use crate::fiber::rule::named_groups;
use crate::source::timestamp::{find_ts, ts_group};
use crate::text::{str_eq, string_from_chars, string_views};

verus! {

/// Whether `char::is_alphanumeric` holds of a character.
pub uninterp spec fn char_alphanumeric(c: char) -> bool;

/// The file name of a path without its extension (`Path::file_stem`), if
/// the path has a file name.
pub uninterp spec fn path_file_stem(path: Seq<char>) -> Option<Seq<char>>;

/// Whether a character is alphabetic or numeric.
///
/// Trusted: `char::is_alphanumeric`; on ASCII it holds of letters and
/// digits only.
#[verifier::external_body]
fn is_alphanumeric(c: char) -> (b: bool)
    ensures
        b == char_alphanumeric(c),
        (c as u32) < 128 ==> (b <==> (('a' <= c && c <= 'z') || ('A' <= c && c <= 'Z') || ('0' <= c && c <= '9'))),
{
    c.is_alphanumeric()
}

/// The stem of a path's file name.
///
/// Trusted: `std::path::Path::file_stem`, read back as text (`None` also
/// when it is not valid UTF-8, which a path given as text never is).
#[verifier::external_body]
fn file_stem(path: &str) -> (r: Option<String>)
    ensures
        match r {
            Some(s) => path_file_stem(path@) == Some(s@),
            None => path_file_stem(path@) is None,
        },
{
    std::path::Path::new(path).file_stem().and_then(|s| s.to_str()).map(|s| s.to_string())
}

/// A character kept in a source id: alphanumeric or `_`; others become `_`.
pub open spec fn id_char(c: char) -> char {
    if char_alphanumeric(c) || c == '_' { c } else { '_' }
}

/// The source id for a log file: its file stem (`source` when it has
/// none) with every character other than alphanumerics and `_` replaced by
/// `_`, prefixed by `source_` when it starts with an ASCII digit, and
/// `source` when that leaves nothing.
pub open spec fn spec_source_id(path: Seq<char>) -> Seq<char> {
    let stem = match path_file_stem(path) {
        Some(s) => s,
        None => "source"@,
    };
    let id = stem.map_values(|c: char| id_char(c));
    let id2 = if id.len() > 0 && '0' <= id[0] && id[0] <= '9' { "source_"@ + id } else { id };
    if id2.len() == 0 { "source"@ } else { id2 }
}

/// Derives a source id from a log file's path.
pub fn derive_source_id(path: &str) -> (id: String)
    ensures
        id@ == spec_source_id(path@),
{
    let stem = match file_stem(path) {
        Some(s) => s,
        None => "source".to_string(),
    };
    let cs = crate::text::chars_of(stem.as_str());
    let mut id: Vec<char> = Vec::new();
    let mut i: usize = 0;
    while i < cs.len()
        invariant
            i <= cs@.len(),
            id@ == cs@.take(i as int).map_values(|c: char| id_char(c)),
        decreases cs@.len() - i,
    {
        let c = cs[i];
        let k = if is_alphanumeric(c) || c == '_' { c } else { '_' };
        id.push(k);
        assert(id@ =~= cs@.take(i as int + 1).map_values(|c: char| id_char(c)));
        i += 1;
    }
    assert(cs@.take(cs@.len() as int) =~= cs@);
    let id2 = if id.len() > 0 && '0' <= id[0] && id[0] <= '9' {
        let mut v: Vec<char> = crate::text::chars_of("source_");
        let mut j: usize = 0;
        let ghost start = v@;
        while j < id.len()
            invariant
                j <= id@.len(),
                v@ == start + id@.take(j as int),
            decreases id@.len() - j,
        {
            v.push(id[j]);
            assert(v@ =~= start + id@.take(j as int + 1));
            j += 1;
        }
        assert(id@.take(id@.len() as int) =~= id@);
        v
    } else {
        id
    };
    if id2.len() == 0 {
        "source".to_string()
    } else {
        string_from_chars(id2.as_slice())
    }
}

// ---------------------------------------------------------------------------
// Editing a line of text at a cursor (a character position)
// ---------------------------------------------------------------------------

/// Inserts a character at the cursor and moves the cursor past it.
pub fn insert_char(text: &mut Vec<char>, cursor: &mut usize, c: char)
    requires
        *old(cursor) <= old(text)@.len(),
    ensures
        final(text)@ == old(text)@.insert(*old(cursor) as int, c),
        *final(cursor) == *old(cursor) + 1,
{
    text.insert(*cursor, c);
    let n = text.len();
    assert(*cursor < n);
    *cursor = *cursor + 1;
}

/// Deletes the character before the cursor, if any, and moves the cursor
/// back over it.
pub fn delete_char(text: &mut Vec<char>, cursor: &mut usize)
    requires
        *old(cursor) <= old(text)@.len(),
    ensures
        *old(cursor) > 0 ==> final(text)@ == old(text)@.remove(*old(cursor) - 1) && *final(cursor) == *old(cursor) - 1,
        *old(cursor) == 0 ==> final(text)@ == old(text)@ && *final(cursor) == 0,
{
    if *cursor > 0 {
        text.remove(*cursor - 1);
        *cursor = *cursor - 1;
    }
}

/// Moves the cursor one character left, if it can.
pub fn move_left(cursor: &mut usize)
    ensures
        *final(cursor) == if *old(cursor) > 0 { *old(cursor) - 1 } else { 0 },
{
    if *cursor > 0 {
        *cursor = *cursor - 1;
    }
}

/// Moves the cursor one character right, up to the end of the text.
pub fn move_right(text: &Vec<char>, cursor: &mut usize)
    ensures
        *final(cursor) == if *old(cursor) < text@.len() { *old(cursor) + 1 } else { *old(cursor) as int },
{
    if *cursor < text.len() {
        *cursor = *cursor + 1;
    }
}

// ---------------------------------------------------------------------------
// Choosing a timestamp pattern and format
// ---------------------------------------------------------------------------

/// The steps of choosing a timestamp pattern and its format.
pub enum Phase {
    RegexInput,
    FormatSelect { selected: usize },
    StrptimeInput,
}

/// The format keys offered, in order.
pub open spec fn format_keys() -> Seq<Seq<char>> {
    seq!["iso8601"@, "epoch"@, "epoch_ms"@, "strptime"@]
}

/// The number of formats offered.
pub const FORMAT_COUNT: usize = 4;

/// The key of the offered format at a position.
pub fn format_key(i: usize) -> (k: &'static str)
    requires
        i < FORMAT_COUNT,
    ensures
        k@ == format_keys()[i as int],
{
    if i == 0 {
        "iso8601"
    } else if i == 1 {
        "epoch"
    } else if i == 2 {
        "epoch_ms"
    } else {
        "strptime"
    }
}

/// The state of choosing a timestamp pattern and format from sample lines.
pub struct RegexFormatState {
    pub pattern: String,
    pub sample_lines: Vec<String>,
    pub error_msg: Option<String>,
    pub has_ts_group: bool,
    pub group_names: Vec<String>,
    pub strptime_fmt: String,
    pub phase: Phase,
    /// The cursor in the pattern, a character position.
    pub pattern_cursor: usize,
    /// The cursor in the custom format, a character position.
    pub strptime_cursor: usize,
    /// The timestamp text the accepted pattern captured from the samples.
    pub captured_ts: Option<String>,
}

/// A key pressed while choosing the pattern and format.
pub enum Key {
    Char(char),
    Enter,
    Esc,
    Backspace,
    Left,
    Right,
    Home,
    End,
    Up,
    Down,
    /// Control-C.
    Interrupt,
    Other,
}

/// What a key press leads to.
pub enum KeyOutcome {
    /// Go on reading keys.
    Continue,
    /// The user gave up.
    Cancelled,
    /// The user chose this pattern and format.
    Chosen { pattern: String, format: String },
}

/// Both cursors lie within their texts and the selected format is offered.
pub open spec fn editing_ok(s: RegexFormatState) -> bool {
    &&& s.pattern_cursor <= s.pattern@.len()
    &&& s.strptime_cursor <= s.strptime_fmt@.len()
    &&& (s.phase matches Phase::FormatSelect { selected } ==> selected < FORMAT_COUNT)
}

/// The state is `s0` with only the phase changed to `p`.
pub open spec fn with_phase(s0: RegexFormatState, s1: RegexFormatState, p: Phase) -> bool {
    s1 == RegexFormatState { phase: p, ..s0 }
}

/// A line edit by the key: the text and its cursor after it.
pub open spec fn edited(text: Seq<char>, cursor: usize, key: Key, t1: Seq<char>, c1: usize) -> bool {
    match key {
        Key::Char(c) => t1 == text.insert(cursor as int, c) && c1 == cursor + 1,
        Key::Backspace => if cursor > 0 {
            t1 == text.remove(cursor - 1) && c1 == cursor - 1
        } else {
            t1 == text && c1 == cursor
        },
        Key::Left => t1 == text && c1 == if cursor > 0 { cursor - 1 } else { 0 },
        Key::Right => t1 == text && c1 == if cursor < text.len() { cursor + 1 } else { cursor as int },
        Key::Home => t1 == text && c1 == 0,
        Key::End => t1 == text && c1 == text.len(),
        _ => t1 == text && c1 == cursor,
    }
}

/// The key edits a line of text.
pub open spec fn is_edit_key(key: Key) -> bool {
    key is Char || key is Backspace || key is Left || key is Right || key is Home || key is End
}

/// The pattern may be accepted: it compiles, has a `ts` group and is not empty.
pub open spec fn can_accept(s: RegexFormatState) -> bool {
    s.error_msg is None && s.has_ts_group && s.pattern@.len() > 0
}

/// One key press: from state `s0`, with the pattern compiled as `compiled`
/// (its text, when it compiles), the key gives state `s1` and outcome `out`.
pub open spec fn key_step(s0: RegexFormatState, s1: RegexFormatState, key: Key, compiled: Option<Seq<char>>, out: KeyOutcome) -> bool {
    if key is Interrupt {
        out is Cancelled && s1 == s0
    } else {
        match s0.phase {
            Phase::RegexInput => match key {
                Key::Esc => out is Cancelled && s1 == s0,
                Key::Enter => out is Continue && if can_accept(s0) {
                    &&& s1.phase == (Phase::FormatSelect { selected: 0 })
                    &&& match compiled {
                        Some(p) => match first_ts_value(string_views(s0.sample_lines@), p) {
                            Some(v) => s1.captured_ts matches Some(t) && t@ == v,
                            None => s1.captured_ts is None,
                        },
                        None => s1.captured_ts == s0.captured_ts,
                    }
                    &&& s1 == RegexFormatState { phase: s1.phase, captured_ts: s1.captured_ts, ..s0 }
                } else {
                    s1 == s0
                },
                _ => out is Continue && if is_edit_key(key) {
                    &&& edited(s0.pattern@, s0.pattern_cursor, key, s1.pattern@, s1.pattern_cursor)
                    &&& s1 == RegexFormatState { pattern: s1.pattern, pattern_cursor: s1.pattern_cursor, ..s0 }
                } else {
                    s1 == s0
                },
            },
            Phase::FormatSelect { selected } => match key {
                Key::Esc => out is Continue && with_phase(s0, s1, Phase::RegexInput),
                Key::Up => out is Continue
                    && with_phase(s0, s1, Phase::FormatSelect { selected: if selected == 0 { (FORMAT_COUNT - 1) as usize } else { (selected - 1) as usize } }),
                Key::Down => out is Continue
                    && with_phase(s0, s1, Phase::FormatSelect { selected: ((selected + 1) % (FORMAT_COUNT as int)) as usize }),
                Key::Char(c) => out is Continue && if c == 'k' {
                    with_phase(s0, s1, Phase::FormatSelect { selected: if selected == 0 { (FORMAT_COUNT - 1) as usize } else { (selected - 1) as usize } })
                } else if c == 'j' {
                    with_phase(s0, s1, Phase::FormatSelect { selected: ((selected + 1) % (FORMAT_COUNT as int)) as usize })
                } else {
                    s1 == s0
                },
                Key::Enter => if selected == 3 {
                    out is Continue && with_phase(s0, s1, Phase::StrptimeInput)
                } else {
                    s1 == s0 && (out matches KeyOutcome::Chosen { pattern, format }
                        && pattern@ == s0.pattern@ && format@ == format_keys()[selected as int])
                },
                _ => out is Continue && s1 == s0,
            },
            Phase::StrptimeInput => match key {
                Key::Esc => out is Continue && with_phase(s0, s1, Phase::FormatSelect { selected: 3 }),
                Key::Enter => s1 == s0 && if s0.strptime_fmt@.len() > 0 {
                    (out matches KeyOutcome::Chosen { pattern, format } && pattern@ == s0.pattern@ && format@ == s0.strptime_fmt@)
                } else {
                    out is Continue
                },
                _ => out is Continue && if is_edit_key(key) {
                    &&& edited(s0.strptime_fmt@, s0.strptime_cursor, key, s1.strptime_fmt@, s1.strptime_cursor)
                    &&& s1 == RegexFormatState { strptime_fmt: s1.strptime_fmt, strptime_cursor: s1.strptime_cursor, ..s0 }
                } else {
                    s1 == s0
                },
            },
        }
    }
}

fn is_edit(key: &Key) -> (b: bool)
    ensures
        b == is_edit_key(*key),
{
    match key {
        Key::Char(_) | Key::Backspace | Key::Left | Key::Right | Key::Home | Key::End => true,
        _ => false,
    }
}

/// Edits a line of text by an editing key.
fn edit_text(text: &String, cursor: usize, key: &Key) -> (r: (String, usize))
    requires
        cursor <= text@.len(),
        is_edit_key(*key),
    ensures
        edited(text@, cursor, *key, r.0@, r.1),
        r.1 <= r.0@.len(),
{
    let mut v = crate::text::chars_of(text.as_str());
    let mut c = cursor;
    match key {
        Key::Char(ch) => insert_char(&mut v, &mut c, *ch),
        Key::Backspace => delete_char(&mut v, &mut c),
        Key::Left => move_left(&mut c),
        Key::Right => move_right(&v, &mut c),
        Key::Home => {
            c = 0;
        },
        Key::End => {
            c = v.len();
        },
        _ => {},
    }
    (string_from_chars(v.as_slice()), c)
}

pub open spec fn has_name(v: Seq<Seq<char>>, n: Seq<char>) -> bool {
    v.contains(n)
}

/// The text of the `ts` group in the first of the lines where the pattern
/// matches with that group taking part.
pub open spec fn first_ts_value(lines: Seq<Seq<char>>, pattern: Seq<char>) -> Option<Seq<char>>
    decreases lines.len(),
{
    if lines.len() == 0 {
        None
    } else {
        let here = match (regex_captures(pattern, lines[0]), ts_group(regex_group_names(pattern), 0)) {
            (Some(g), Some(k)) => if 0 <= k < g.len() { g[k] } else { None },
            _ => None,
        };
        match here {
            Some(v) => Some(v),
            None => first_ts_value(lines.drop_first(), pattern),
        }
    }
}

impl RegexFormatState {
    /// Compiles the pattern typed so far: on success the named groups are
    /// listed and whether one is `ts`; on failure the error's message is
    /// kept. An empty pattern clears everything.
    pub fn try_compile(&mut self) -> (r: Option<CompiledRegex>)
        ensures
            final(self).pattern == old(self).pattern,
            final(self).sample_lines == old(self).sample_lines,
            final(self).strptime_fmt == old(self).strptime_fmt,
            final(self).phase == old(self).phase,
            old(self).pattern@.len() == 0 ==> r is None && final(self).error_msg is None && !final(self).has_ts_group
                && final(self).group_names@.len() == 0,
            old(self).pattern@.len() > 0 && regex_accepts(old(self).pattern@) ==> {
                &&& r matches Some(re) && re.pattern() == old(self).pattern@
                &&& string_views(final(self).group_names@) == named_groups(regex_group_names(old(self).pattern@))
                &&& final(self).has_ts_group == has_name(string_views(final(self).group_names@), "ts"@)
                &&& final(self).error_msg is None
            },
            old(self).pattern@.len() > 0 && !regex_accepts(old(self).pattern@) ==> {
                &&& r is None
                &&& final(self).error_msg matches Some(m) && m@ == regex_error_message(old(self).pattern@)
                &&& !final(self).has_ts_group
                &&& final(self).group_names@.len() == 0
            },
    {
        if crate::text::chars_of(self.pattern.as_str()).len() == 0 {
            proof {
                assert(self.pattern@.len() == 0);
            }
            self.error_msg = None;
            self.has_ts_group = false;
            self.group_names = Vec::new();
            return None;
        }
        proof {
            assert(self.pattern@.len() > 0);
        }
        match CompiledRegex::compile(self.pattern.as_str()) {
            Ok(re) => {
                let names = re.group_names();
                let mut groups: Vec<String> = Vec::new();
                let mut has_ts = false;
                let mut i: usize = 0;
                while i < names.len()
                    invariant
                        i <= names@.len(),
                        string_views(groups@) == named_groups(opt_views(names@).take(i as int)),
                        has_ts == has_name(string_views(groups@), "ts"@),
                    decreases names@.len() - i,
                {
                    assert(opt_views(names@).take(i as int + 1).drop_last() =~= opt_views(names@).take(i as int));
                    assert(opt_views(names@).take(i as int + 1).last() == opt_views(names@)[i as int]);
                    match &names[i] {
                        Some(n) => {
                            let ghost prev = groups@;
                            let is_ts = str_eq(n.as_str(), "ts");
                            groups.push(n.clone());
                            assert(string_views(groups@) =~= string_views(prev).push(n@));
                            proof {
                                let g = string_views(groups@);
                                if has_name(string_views(prev), "ts"@) {
                                    let k = choose|k: int| 0 <= k < string_views(prev).len() && string_views(prev)[k] == "ts"@;
                                    assert(g[k] == "ts"@);
                                }
                                if is_ts {
                                    assert(g[g.len() - 1] == "ts"@);
                                }
                                if has_name(g, "ts"@) && !is_ts {
                                    let k = choose|k: int| 0 <= k < g.len() && g[k] == "ts"@;
                                    assert(k < g.len() - 1);
                                    assert(string_views(prev)[k] == "ts"@);
                                }
                            }
                            has_ts = has_ts || is_ts;
                        },
                        None => {},
                    }
                    i += 1;
                }
                assert(opt_views(names@).take(names@.len() as int) =~= opt_views(names@));
                self.group_names = groups;
                self.has_ts_group = has_ts;
                self.error_msg = None;
                Some(re)
            },
            Err(e) => {
                self.error_msg = Some(e.message);
                self.has_ts_group = false;
                self.group_names = Vec::new();
                None
            },
        }
    }

    /// The captured timestamp text of the first sample line on which the
    /// compiled pattern captures one.
    pub fn extract_ts_value(&self, re: &CompiledRegex) -> (r: Option<String>)
        ensures
            match r {
                Some(v) => first_ts_value(string_views(self.sample_lines@), re.pattern()) == Some(v@),
                None => first_ts_value(string_views(self.sample_lines@), re.pattern()) is None,
            },
    {
        let names = re.group_names();
        let k = find_ts(&names);
        let ghost lines = string_views(self.sample_lines@);
        let mut i: usize = 0;
        assert(lines.skip(0) =~= lines);
        while i < self.sample_lines.len()
            invariant
                i <= self.sample_lines@.len(),
                lines == string_views(self.sample_lines@),
                opt_views(names@) == regex_group_names(re.pattern()),
                match k {
                    Some(x) => ts_group(opt_views(names@), 0) == Some(x as int),
                    None => ts_group(opt_views(names@), 0) is None,
                },
                first_ts_value(lines, re.pattern()) == first_ts_value(lines.skip(i as int), re.pattern()),
            decreases self.sample_lines@.len() - i,
        {
            assert(lines.skip(i as int).drop_first() =~= lines.skip(i as int + 1));
            assert(lines.skip(i as int)[0] == self.sample_lines@[i as int]@);
            match re.captures(self.sample_lines[i].as_str()) {
                Some(groups) => {
                    match k {
                        Some(x) => {
                            if x < groups.len() {
                                match &groups[x] {
                                    Some(v) => {
                                        assert(opt_views(groups@)[x as int] == Some(v@));
                                        return Some(v.clone());
                                    },
                                    None => {
                                        assert(opt_views(groups@)[x as int] is None);
                                    },
                                }
                            }
                        },
                        None => {},
                    }
                },
                None => {},
            }
            i += 1;
        }
        None
    }

    /// A state for choosing a pattern and format for the sample lines: an
    /// empty pattern, no custom format, at the pattern's input.
    pub fn new(sample_lines: Vec<String>) -> (s: Self)
        ensures
            s.sample_lines == sample_lines,
            s.pattern@.len() == 0 && s.strptime_fmt@.len() == 0,
            s.phase is RegexInput,
            s.pattern_cursor == 0 && s.strptime_cursor == 0,
            s.captured_ts is None && s.error_msg is None && !s.has_ts_group && s.group_names@.len() == 0,
            editing_ok(s),
    {
        RegexFormatState {
            pattern: String::new(),
            sample_lines,
            error_msg: None,
            has_ts_group: false,
            group_names: Vec::new(),
            strptime_fmt: String::new(),
            phase: Phase::RegexInput,
            pattern_cursor: 0,
            strptime_cursor: 0,
            captured_ts: None,
        }
    }

    /// Takes a key press (`compiled`: the pattern as last compiled, see
    /// `try_compile`).
    pub fn on_key(&mut self, key: Key, compiled: &Option<CompiledRegex>) -> (out: KeyOutcome)
        requires
            editing_ok(*old(self)),
        ensures
            editing_ok(*final(self)),
            key_step(*old(self), *final(self), key, match compiled { Some(re) => Some(re.pattern()), None => None }, out),
    {
        if let Key::Interrupt = key {
            return KeyOutcome::Cancelled;
        }
        match self.phase {
            Phase::RegexInput => match key {
                Key::Esc => KeyOutcome::Cancelled,
                Key::Enter => {
                    let accept = self.error_msg.is_none() && self.has_ts_group
                        && crate::text::chars_of(self.pattern.as_str()).len() > 0;
                    if accept {
                        match compiled {
                            Some(re) => {
                                self.captured_ts = self.extract_ts_value(re);
                            },
                            None => {},
                        }
                        self.phase = Phase::FormatSelect { selected: 0 };
                    }
                    KeyOutcome::Continue
                },
                _ => {
                    if is_edit(&key) {
                        let (t, c) = edit_text(&self.pattern, self.pattern_cursor, &key);
                        self.pattern = t;
                        self.pattern_cursor = c;
                    }
                    KeyOutcome::Continue
                },
            },
            Phase::FormatSelect { selected } => {
                let up = match key { Key::Up => true, Key::Char(c) => c == 'k', _ => false };
                let down = match key { Key::Down => true, Key::Char(c) => c == 'j', _ => false };
                if up {
                    self.phase = Phase::FormatSelect { selected: if selected == 0 { FORMAT_COUNT - 1 } else { selected - 1 } };
                    KeyOutcome::Continue
                } else if down {
                    self.phase = Phase::FormatSelect { selected: (selected + 1) % FORMAT_COUNT };
                    KeyOutcome::Continue
                } else {
                    match key {
                        Key::Esc => {
                            self.phase = Phase::RegexInput;
                            KeyOutcome::Continue
                        },
                        Key::Enter => {
                            let k = format_key(selected);
                            if selected == 3 {
                                self.phase = Phase::StrptimeInput;
                                KeyOutcome::Continue
                            } else {
                                KeyOutcome::Chosen { pattern: self.pattern.clone(), format: k.to_string() }
                            }
                        },
                        _ => KeyOutcome::Continue,
                    }
                }
            },
            Phase::StrptimeInput => match key {
                Key::Esc => {
                    self.phase = Phase::FormatSelect { selected: 3 };
                    KeyOutcome::Continue
                },
                Key::Enter => {
                    if crate::text::chars_of(self.strptime_fmt.as_str()).len() > 0 {
                        KeyOutcome::Chosen { pattern: self.pattern.clone(), format: self.strptime_fmt.clone() }
                    } else {
                        KeyOutcome::Continue
                    }
                },
                _ => {
                    if is_edit(&key) {
                        let (t, c) = edit_text(&self.strptime_fmt, self.strptime_cursor, &key);
                        self.strptime_fmt = t;
                        self.strptime_cursor = c;
                    }
                    KeyOutcome::Continue
                },
            },
        }
    }

    /// The format chosen so far: the selected offered format, unless it is
    /// the custom one; or the custom format typed, once it is not empty.
    pub fn current_format_string(&self) -> (r: Option<String>)
        requires
            self.phase matches Phase::FormatSelect { selected } ==> selected < FORMAT_COUNT,
        ensures
            match self.phase {
                Phase::FormatSelect { selected } => if selected == 3 {
                    r is None
                } else {
                    r matches Some(s) && s@ == format_keys()[selected as int]
                },
                Phase::StrptimeInput => if self.strptime_fmt@.len() == 0 {
                    r is None
                } else {
                    r matches Some(s) && s@ == self.strptime_fmt@
                },
                Phase::RegexInput => r is None,
            },
    {
        match &self.phase {
            Phase::FormatSelect { selected } => {
                let key = format_key(*selected);
                if *selected == 3 {
                    None
                } else {
                    Some(key.to_string())
                }
            },
            Phase::StrptimeInput => {
                if crate::text::chars_of(self.strptime_fmt.as_str()).len() == 0 {
                    proof {
                        assert(self.strptime_fmt@.len() == 0);
                    }
                    None
                } else {
                    Some(self.strptime_fmt.clone())
                }
            },
            Phase::RegexInput => None,
        }
    }
}

} // verus!

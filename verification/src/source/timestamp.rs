use vstd::prelude::*;
use chrono::TimeZone;
use crate::matcher::{CompiledRegex, regex_accepts, regex_group_names, regex_captures, opt_views};
use crate::text::{str_eq, chars_of, contains_seq, parse_i64, spec_parse_i64, seq_contains};
use crate::time::{Timestamp, instant_from_parts, spec_instant, valid_timestamp};

verus! {

/// Errors of timestamp extraction.
#[derive(Debug)]
pub enum TimestampError {
    /// The pattern is not a valid regular expression.
    InvalidRegex(regex::Error),
    /// The pattern has no capture group named `ts`.
    MissingTsGroup,
    /// The captured text does not read as a timestamp of the format.
    ParseError { value: String, format: String, reason: String },
}

/// How a captured timestamp is read.
#[derive(Debug)]
pub enum TimestampFormat {
    /// A chrono strftime-style format.
    Strptime(String),
    /// RFC 3339.
    Iso8601,
    /// Whole seconds since the epoch.
    Epoch,
    /// Milliseconds since the epoch.
    EpochMs,
}

/// Whether chrono represents the instant `secs` seconds and `nsecs`
/// nanoseconds after the epoch (`DateTime::from_timestamp` is `Some`): its
/// day, counted from 1 January of year 1 as day 1 (the epoch is day
/// 719163), falls from 1 January of year -262143 to 31 December of year
/// 262142, and the sub-second part is below a second, or below two seconds
/// in the last second of a minute (a leap second).
pub open spec fn timestamp_accepted(secs: i64, nsecs: u32) -> bool {
    let day = secs as int / 86_400 + 719_163;
    &&& -95_746_129 <= day <= 95_745_399
    &&& (nsecs < 1_000_000_000 || (nsecs < 2_000_000_000 && secs % 60 == 59))
}

/// The UTC instant, as seconds and sub-second nanoseconds, of an RFC 3339
/// text (`DateTime::parse_from_rfc3339`); `None` when it does not parse.
pub uninterp spec fn rfc3339_instant(value: Seq<char>) -> Option<(i64, u32)>;

/// The UTC instant of a text read with a format that carries a time zone
/// (`DateTime::parse_from_str`); `None` when it does not parse.
pub uninterp spec fn strptime_zoned(value: Seq<char>, format: Seq<char>) -> Option<(i64, u32)>;

/// The instant of a text read with a format without time zone, taken as
/// UTC (`NaiveDateTime::parse_from_str`); `None` when it does not parse.
pub uninterp spec fn strptime_naive(value: Seq<char>, format: Seq<char>) -> Option<(i64, u32)>;

/// The instant `secs` seconds and `nsecs` nanoseconds after the epoch.
///
/// Trusted: `chrono::Utc.timestamp_opt(..).single()`, which is
/// `DateTime::from_timestamp`: it gives an instant exactly when
/// `timestamp_accepted` holds (the day is within chrono's years -262143 to
/// 262142, the time of day valid with at most a leap second), and an
/// accepted instant keeps its seconds and nanoseconds.
#[verifier::external_body]
fn utc_timestamp(secs: i64, nsecs: u32) -> (r: Option<(i64, u32)>)
    ensures
        r is Some <==> timestamp_accepted(secs, nsecs),
        r matches Some(p) ==> p == (secs, nsecs),
{
    chrono::Utc.timestamp_opt(secs, nsecs).single().map(|dt| (dt.timestamp(), dt.timestamp_subsec_nanos()))
}

/// Reads an RFC 3339 text.
///
/// Trusted: `chrono::DateTime::parse_from_rfc3339`, converted to UTC; on
/// failure the message of chrono's error, of which nothing is promised.
#[verifier::external_body]
fn parse_rfc3339(value: &str) -> (r: Result<(i64, u32), String>)
    ensures
        match r {
            Ok(p) => rfc3339_instant(value@) == Some(p) && p.1 < 2_000_000_000,
            Err(_) => rfc3339_instant(value@) is None,
        },
{
    match chrono::DateTime::parse_from_rfc3339(value) {
        Ok(dt) => Ok((dt.timestamp(), dt.timestamp_subsec_nanos())),
        Err(e) => Err(e.to_string()),
    }
}

/// Reads a text with a format that carries a time zone.
///
/// Trusted: `chrono::DateTime::parse_from_str`, converted to UTC; on
/// failure the message of chrono's error, of which nothing is promised.
#[verifier::external_body]
fn parse_zoned(value: &str, format: &str) -> (r: Result<(i64, u32), String>)
    ensures
        match r {
            Ok(p) => strptime_zoned(value@, format@) == Some(p) && p.1 < 2_000_000_000,
            Err(_) => strptime_zoned(value@, format@) is None,
        },
{
    match chrono::DateTime::parse_from_str(value, format) {
        Ok(dt) => Ok((dt.timestamp(), dt.timestamp_subsec_nanos())),
        Err(e) => Err(e.to_string()),
    }
}

/// Reads a text with a format without time zone, as UTC.
///
/// Trusted: `chrono::NaiveDateTime::parse_from_str` then `and_utc`; on
/// failure the message of chrono's error, of which nothing is promised.
#[verifier::external_body]
fn parse_naive(value: &str, format: &str) -> (r: Result<(i64, u32), String>)
    ensures
        match r {
            Ok(p) => strptime_naive(value@, format@) == Some(p) && p.1 < 2_000_000_000,
            Err(_) => strptime_naive(value@, format@) is None,
        },
{
    match chrono::NaiveDateTime::parse_from_str(value, format) {
        Ok(ndt) => {
            let dt = ndt.and_utc();
            Ok((dt.timestamp(), dt.timestamp_subsec_nanos()))
        },
        Err(e) => Err(e.to_string()),
    }
}

/// A format names a time zone when it has `%z`, `%Z` or `%:z`.
pub open spec fn has_zone(format: Seq<char>) -> bool {
    seq_contains(format, "%z"@) || seq_contains(format, "%Z"@) || seq_contains(format, "%:z"@)
}

/// The format string selects the format: the three names, else strftime.
pub open spec fn format_selected(fmt: TimestampFormat, f: Seq<char>) -> bool {
    if f == "iso8601"@ {
        fmt is Iso8601
    } else if f == "epoch"@ {
        fmt is Epoch
    } else if f == "epoch_ms"@ {
        fmt is EpochMs
    } else {
        fmt matches TimestampFormat::Strptime(s) && s@ == f
    }
}

/// The name a parse error reports for the format.
pub open spec fn format_name(fmt: TimestampFormat) -> Seq<char> {
    match fmt {
        TimestampFormat::Iso8601 => "iso8601"@,
        TimestampFormat::Epoch => "epoch"@,
        TimestampFormat::EpochMs => "epoch_ms"@,
        TimestampFormat::Strptime(s) => s@,
    }
}

/// Whole seconds of a count of milliseconds, rounded toward zero.
pub open spec fn ms_secs(m: int) -> int {
    if m >= 0 { m / 1000 } else { -((-m) / 1000) }
}

/// The nanosecond part handed to chrono for a count of milliseconds: the
/// remainder (of the sign of `m`) in nanoseconds, taken modulo 2^32.
pub open spec fn ms_nanos(m: int) -> int {
    let r = m - ms_secs(m) * 1000;
    if r >= 0 { r * 1_000_000 } else { 4294967296 + r * 1_000_000 }
}

/// The instant a captured text reads as under the format, in nanoseconds
/// since the epoch; `None` when it does not read.
pub open spec fn parse_outcome(fmt: TimestampFormat, v: Seq<char>) -> Option<int> {
    match fmt {
        TimestampFormat::Iso8601 => match rfc3339_instant(v) {
            Some(p) => Some(spec_instant(p.0, p.1)),
            None => None,
        },
        TimestampFormat::Epoch => match spec_parse_i64(v) {
            Some(s) => if timestamp_accepted(s as i64, 0) { Some(spec_instant(s as i64, 0)) } else { None },
            None => None,
        },
        TimestampFormat::EpochMs => match spec_parse_i64(v) {
            Some(m) => if ms_nanos(m) < 2_000_000_000 && timestamp_accepted(ms_secs(m) as i64, ms_nanos(m) as u32) {
                Some(spec_instant(ms_secs(m) as i64, ms_nanos(m) as u32))
            } else {
                None
            },
            None => None,
        },
        TimestampFormat::Strptime(f) => {
            let p = if has_zone(f@) { strptime_zoned(v, f@) } else { strptime_naive(v, f@) };
            match p {
                Some(p) => Some(spec_instant(p.0, p.1)),
                None => None,
            }
        },
    }
}

/// Law: a strftime format that names a time zone (`%z`, `%Z` or `%:z`)
/// reads the text with its zone, converted to UTC; any other format reads it
/// as UTC without a zone.
pub proof fn law_zone_directives_read_the_zone(f: String, v: Seq<char>)
    ensures
        (seq_contains(f@, "%z"@) || seq_contains(f@, "%Z"@) || seq_contains(f@, "%:z"@))
            ==> parse_outcome(TimestampFormat::Strptime(f), v) == match strptime_zoned(v, f@) {
                Some(p) => Some(spec_instant(p.0, p.1)),
                None => None::<int>,
            },
        !(seq_contains(f@, "%z"@) || seq_contains(f@, "%Z"@) || seq_contains(f@, "%:z"@))
            ==> parse_outcome(TimestampFormat::Strptime(f), v) == match strptime_naive(v, f@) {
                Some(p) => Some(spec_instant(p.0, p.1)),
                None => None::<int>,
            },
{
}

/// The result is what reading the text under the format gives.
pub open spec fn parsed_as(r: Result<Timestamp, TimestampError>, fmt: TimestampFormat, v: Seq<char>) -> bool {
    match parse_outcome(fmt, v) {
        Some(t) => r matches Ok(x) && x == t,
        None => r matches Err(TimestampError::ParseError { value, format, .. }) && value@ == v && format@ == format_name(fmt),
    }
}

/// The first capture group named `ts`.
pub open spec fn ts_group(names: Seq<Option<Seq<char>>>, i: int) -> Option<int>
    decreases names.len() - i,
{
    if i < 0 || i >= names.len() {
        None
    } else if names[i] == Some("ts"@) {
        Some(i)
    } else {
        ts_group(names, i + 1)
    }
}

/// Extracts and parses the timestamp of log lines.
pub struct TimestampExtractor {
    pattern: CompiledRegex,
    format: TimestampFormat,
    ts_index: usize,
}

fn parse_error(value: &str, format: &TimestampFormat, reason: String) -> (e: TimestampError)
    ensures
        e matches TimestampError::ParseError { value: v, format: f, .. } && v@ == value@ && f@ == format_name(*format),
{
    let name = match format {
        TimestampFormat::Iso8601 => "iso8601".to_string(),
        TimestampFormat::Epoch => "epoch".to_string(),
        TimestampFormat::EpochMs => "epoch_ms".to_string(),
        TimestampFormat::Strptime(s) => s.clone(),
    };
    TimestampError::ParseError { value: value.to_string(), format: name, reason }
}

/// Whether two string slices are equal.
/// The position of the first capture group named `ts`.
pub(crate) fn find_ts(names: &Vec<Option<String>>) -> (r: Option<usize>)
    ensures
        match r {
            Some(i) => ts_group(opt_views(names@), 0) == Some(i as int),
            None => ts_group(opt_views(names@), 0) is None,
        },
{
    let ghost gn = opt_views(names@);
    let ts = "ts".to_string();
    proof {
        reveal_strlit("ts");
    }
    let mut i: usize = 0;
    while i < names.len()
        invariant
            i <= names@.len(),
            gn == opt_views(names@),
            ts@ == "ts"@,
            ts_group(gn, 0) == ts_group(gn, i as int),
        decreases names@.len() - i,
    {
        match &names[i] {
            Some(n) => {
                if *n == ts {
                    return Some(i);
                }
            },
            None => {},
        }
        i += 1;
    }
    None
}

/// What reading the timestamp of `line` with extractor `x` gives: nothing
/// when the pattern does not match or its `ts` group takes no part, the
/// instant when the value reads in the format, and a parse error naming the
/// value and the format otherwise.
pub open spec fn extract_outcome(x: TimestampExtractor, line: Seq<char>, r: Result<Option<Timestamp>, TimestampError>) -> bool {
    &&& (r matches Ok(Some(t)) ==> valid_timestamp(t))
    &&& match regex_captures(x.pattern(), line) {
        None => r matches Ok(None),
        Some(c) => match c[x.ts_index() as int] {
            None => r matches Ok(None),
            Some(v) => match parse_outcome(x.format(), v) {
                Some(t) => r matches Ok(Some(y)) && y == t,
                None => r matches Err(TimestampError::ParseError { value, format, .. }) && value@ == v
                    && format@ == format_name(x.format()),
            },
        },
    }
}

impl TimestampExtractor {
    /// The pattern of the extractor.
    pub closed spec fn pattern(&self) -> Seq<char> {
        self.pattern.pattern()
    }

    /// The format of the extractor.
    pub closed spec fn format(&self) -> TimestampFormat {
        self.format
    }

    pub closed spec fn wf(&self) -> bool {
        ts_group(regex_group_names(self.pattern.pattern()), 0) == Some(self.ts_index as int)
    }

    /// An extractor for the pattern, which must have a capture group named
    /// `ts`, and the format (`iso8601`, `epoch`, `epoch_ms`, or a strftime
    /// format).
    pub fn new(pattern: &str, format: &str) -> (r: Result<TimestampExtractor, TimestampError>)
        ensures
            match r {
                Ok(x) => regex_accepts(pattern@) && ts_group(regex_group_names(pattern@), 0) is Some
                    && x.wf() && x.pattern() == pattern@ && format_selected(x.format(), format@),
                Err(TimestampError::InvalidRegex(_)) => !regex_accepts(pattern@),
                Err(TimestampError::MissingTsGroup) => regex_accepts(pattern@) && ts_group(regex_group_names(pattern@), 0) is None,
                Err(TimestampError::ParseError { .. }) => false,
            },
    {
        let regex = match CompiledRegex::compile(pattern) {
            Ok(re) => re,
            Err(e) => {
                return Err(TimestampError::InvalidRegex(e.error));
            },
        };
        let names = regex.group_names();
        let found = find_ts(&names);
        let ts_index = match found {
            Some(k) => k,
            None => {
                return Err(TimestampError::MissingTsGroup);
            },
        };
        let fmt = if str_eq(format, "iso8601") {
            TimestampFormat::Iso8601
        } else if str_eq(format, "epoch") {
            TimestampFormat::Epoch
        } else if str_eq(format, "epoch_ms") {
            TimestampFormat::EpochMs
        } else {
            TimestampFormat::Strptime(format.to_string())
        };
        Ok(TimestampExtractor { pattern: regex, format: fmt, ts_index })
    }
}


impl TimestampExtractor {
    /// Reads a captured text under the extractor's format.
    pub fn parse_value(&self, value: &str) -> (r: Result<Timestamp, TimestampError>)
        ensures
            parsed_as(r, self.format(), value@),
            r matches Ok(t) ==> valid_timestamp(t),
            self.format() is Epoch ==> (spec_parse_i64(value@) matches Some(s)
                && -8_000_000_000_000 <= s <= 8_000_000_000_000 ==> r is Ok),
            self.format() is EpochMs ==> (spec_parse_i64(value@) matches Some(m)
                && -8_000_000_000_000_000 <= m <= 8_000_000_000_000_000 && (m >= 0 || m % 1000 == 0) ==> r is Ok),
    {
        match &self.format {
            TimestampFormat::Iso8601 => match parse_rfc3339(value) {
                Ok(p) => Ok(instant_from_parts(p.0, p.1)),
                Err(msg) => Err(parse_error(value, &self.format, msg)),
            },
            TimestampFormat::Epoch => {
                let cs = chars_of(value);
                match parse_i64(cs.as_slice()) {
                    Some(secs) => match utc_timestamp(secs, 0) {
                        Some(p) => Ok(instant_from_parts(p.0, p.1)),
                        None => Err(parse_error(value, &self.format, "timestamp out of range".to_string())),
                    },
                    None => Err(parse_error(value, &self.format, "invalid integer value".to_string())),
                }
            },
            TimestampFormat::EpochMs => {
                let cs = chars_of(value);
                match parse_i64(cs.as_slice()) {
                    Some(millis) => {
                        let m: i128 = millis as i128;
                        let mag: i128 = if m >= 0 { m } else { -m };
                        let q: i128 = mag / 1000;
                        let secs: i128 = if m >= 0 { q } else { -q };
                        let rem: i128 = m - secs * 1000;
                        let nanos: i128 = if rem >= 0 { rem * 1_000_000 } else { 4294967296 + rem * 1_000_000 };
                        assert(secs == ms_secs(m as int));
                        assert(nanos == ms_nanos(m as int));
                        assert(0 <= nanos < 4294967296);
                        match utc_timestamp(secs as i64, nanos as u32) {
                            Some(p) => Ok(instant_from_parts(p.0, p.1)),
                            None => Err(parse_error(value, &self.format, "timestamp out of range".to_string())),
                        }
                    },
                    None => Err(parse_error(value, &self.format, "invalid integer value".to_string())),
                }
            },
            TimestampFormat::Strptime(f) => {
                let fc = chars_of(f.as_str());
                let z1 = chars_of("%z");
                let z2 = chars_of("%Z");
                let z3 = chars_of("%:z");
                let zoned = contains_seq(fc.as_slice(), z1.as_slice()) || contains_seq(fc.as_slice(), z2.as_slice())
                    || contains_seq(fc.as_slice(), z3.as_slice());
                let parsed = if zoned { parse_zoned(value, f.as_str()) } else { parse_naive(value, f.as_str()) };
                match parsed {
                    Ok(p) => Ok(instant_from_parts(p.0, p.1)),
                    Err(msg) => Err(parse_error(value, &self.format, msg)),
                }
            },
        }
    }

    /// The timestamp of a log line: `Ok(None)` when the pattern does not
    /// match the line, or when it matches without the `ts` group taking part.
    pub fn extract(&self, line: &str) -> (r: Result<Option<Timestamp>, TimestampError>)
        requires
            self.wf(),
        ensures
            extract_outcome(*self, line@, r),
    {
        match self.pattern.captures(line) {
            None => Ok(None),
            Some(caps) => {
                proof {
                    lemma_ts_group_bound(regex_group_names(self.pattern.pattern()), 0);
                }
                match &caps[self.ts_index] {
                    None => Ok(None),
                    Some(v) => match self.parse_value(v.as_str()) {
                        Ok(t) => Ok(Some(t)),
                        Err(e) => Err(e),
                    },
                }
            },
        }
    }

    /// The position of the `ts` group among the capture groups.
    pub closed spec fn ts_index(&self) -> usize {
        self.ts_index
    }
}

proof fn lemma_ts_group_bound(names: Seq<Option<Seq<char>>>, i: int)
    ensures
        ts_group(names, i) matches Some(k) ==> 0 <= k < names.len() && names[k] == Some("ts"@),
    decreases names.len() - i,
{
    if 0 <= i < names.len() && names[i] != Some("ts"@) {
        lemma_ts_group_bound(names, i + 1);
    }
}

} // verus!

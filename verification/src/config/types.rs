use vstd::prelude::*;
use crate::time::Nanos;
use crate::source::reader::{spec_is_whitespace, is_whitespace};
use crate::text::{
    all_digits, append_str, chars_of, decimal_chars, digits_value, is_ascii_digit, lemma_decimal_digits, parse_unsigned,
    spec_decimal, spec_parse_unsigned, string_from_chars,
};

verus! {

/// The whole configuration. Named maps are kept as lists of (name, value)
/// pairs in the order they were read.
pub struct Config {
    pub sources: Vec<(String, SourceConfig)>,
    pub fiber_types: Vec<(String, FiberTypeConfig)>,
    pub auto_source_fibers: bool,
    pub pipeline: PipelineConfig,
    pub sequencer: SequencerConfig,
    pub storage: StorageConfig,
    pub web: WebConfig,
}

/// The default of `auto_source_fibers`.
pub fn default_auto_source_fibers() -> (b: bool)
    ensures
        b,
{
    true
}

pub struct SourceConfig {
    pub source_type: SourceType,
    pub path: String,
    pub timestamp: TimestampConfig,
    pub read: ReadConfig,
}

#[derive(Clone, Copy, Debug, PartialEq, Eq, Structural)]
pub enum SourceType {
    File,
}

pub struct TimestampConfig {
    pub pattern: String,
    pub format: String,
}

pub struct ReadConfig {
    pub start: ReadStart,
    pub follow: bool,
}

#[derive(Clone, Copy, Debug, PartialEq, Eq, Structural)]
pub enum ReadStart {
    Beginning,
    End,
    StoredOffset,
}

pub struct FiberTypeConfig {
    pub description: Option<String>,
    pub temporal: TemporalConfig,
    pub attributes: Vec<AttributeConfig>,
    pub sources: Vec<(String, FiberSourceConfig)>,
    /// Whether the fiber type was generated for a source rather than written.
    pub is_source_fiber: bool,
}

pub struct TemporalConfig {
    /// The longest allowed gap between logs; `None` means no limit.
    pub max_gap: Option<Nanos>,
    pub gap_mode: GapMode,
}

/// The default gap mode.
pub fn default_gap_mode() -> (g: GapMode)
    ensures
        g == GapMode::Session,
{
    GapMode::Session
}

#[derive(Clone, Copy, Debug, PartialEq, Eq, Structural)]
pub enum GapMode {
    /// Gaps are measured from the fiber's latest log.
    Session,
    /// Gaps are measured from the fiber's first log.
    FromStart,
}

pub struct AttributeConfig {
    pub name: String,
    pub attr_type: AttributeType,
    pub key: bool,
    pub derived: Option<String>,
}

#[derive(Clone, Copy, Debug, PartialEq, Eq, Structural)]
pub enum AttributeType {
    String,
    Ip,
    Mac,
    Int,
    Float,
}

pub struct FiberSourceConfig {
    pub patterns: Vec<PatternConfig>,
}

pub struct PatternConfig {
    pub regex: String,
    pub release_matching_peer_keys: Vec<String>,
    pub release_self_keys: Vec<String>,
    pub close: bool,
}

pub struct PipelineConfig {
    pub backpressure: BackpressureConfig,
    pub errors: ErrorConfig,
    pub checkpoint: CheckpointConfig,
}

pub struct BackpressureConfig {
    pub strategy: BackpressureStrategy,
    pub buffer_limit: usize,
}

/// The default channel buffer limit.
pub fn default_buffer_limit() -> (n: usize)
    ensures
        n == 10000,
{
    10000
}

#[derive(Clone, Copy, Debug, PartialEq, Eq, Structural)]
pub enum BackpressureStrategy {
    Block,
    Drop,
    BufferInMemory,
}

/// What a collector's batch buffer does when it is full.
#[derive(Clone, Copy, Debug, PartialEq, Eq, Structural)]
pub enum BufferStrategy {
    /// Refuse new batches.
    Block,
    /// Drop the oldest batch.
    DropOldest,
    /// Keep growing.
    WaitForever,
}

pub struct ErrorConfig {
    pub on_parse_error: ParseErrorStrategy,
}

#[derive(Clone, Copy, Debug, PartialEq, Eq, Structural)]
pub enum ParseErrorStrategy {
    Drop,
    Panic,
}

pub struct CheckpointConfig {
    pub enabled: bool,
    pub interval_seconds: u64,
}

/// A remote collector to pull logs from.
pub struct CollectorEndpoint {
    pub id: String,
    pub url: String,
    /// The first wait before a failed request is tried again.
    pub retry_interval: Nanos,
    /// How long a request may take.
    pub timeout: Nanos,
}

pub struct SequencerConfig {
    pub batch_epoch_duration: Option<Nanos>,
    pub watermark_safety_margin: Option<Nanos>,
}

pub struct StorageConfig {
    pub path: String,
    pub batch_size: usize,
    pub flush_interval_seconds: u64,
}

pub struct WebConfig {
    pub listen: String,
}


/// The text without leading whitespace.
pub open spec fn trim_start_ws(s: Seq<char>) -> Seq<char>
    decreases s.len(),
{
    if s.len() > 0 && spec_is_whitespace(s[0]) {
        trim_start_ws(s.drop_first())
    } else {
        s
    }
}

/// The text without trailing whitespace.
pub open spec fn trim_end_ws(s: Seq<char>) -> Seq<char>
    decreases s.len(),
{
    if s.len() > 0 && spec_is_whitespace(s.last()) {
        trim_end_ws(s.drop_last())
    } else {
        s
    }
}

/// The text without leading and trailing whitespace (`str::trim`).
pub open spec fn trim_ws(s: Seq<char>) -> Seq<char> {
    trim_end_ws(trim_start_ws(s))
}

/// Trims whitespace from both ends of a text.
pub fn trim_text(s: &str) -> (r: Vec<char>)
    ensures
        r@ == trim_ws(s@),
{
    let c = chars_of(s);
    let mut a: usize = 0;
    assert(c@.subrange(0, c@.len() as int) =~= c@);
    while a < c.len() && is_whitespace(c[a])
        invariant
            a <= c@.len(),
            c@ == s@,
            trim_start_ws(s@) == trim_start_ws(c@.subrange(a as int, c@.len() as int)),
        decreases c@.len() - a,
    {
        assert(c@.subrange(a as int, c@.len() as int).drop_first() =~= c@.subrange(a as int + 1, c@.len() as int));
        a += 1;
    }
    let ghost t = c@.subrange(a as int, c@.len() as int);
    assert(trim_start_ws(s@) == t);
    let mut b: usize = c.len();
    assert(t.take(t.len() as int) =~= t);
    while b > a && is_whitespace(c[b - 1])
        invariant
            a <= b <= c@.len(),
            t == c@.subrange(a as int, c@.len() as int),
            trim_end_ws(t) == trim_end_ws(c@.subrange(a as int, b as int)),
        decreases b - a,
    {
        assert(c@.subrange(a as int, b as int).drop_last() =~= c@.subrange(a as int, b as int - 1));
        b -= 1;
    }
    let mut r: Vec<char> = Vec::new();
    let mut i: usize = a;
    while i < b
        invariant
            a <= i <= b <= c@.len(),
            r@ == c@.subrange(a as int, i as int),
        decreases b - i,
    {
        r.push(c[i]);
        assert(r@ =~= c@.subrange(a as int, i as int + 1));
        i += 1;
    }
    r
}

/// A duration's text split into its number text and the nanoseconds of
/// its unit: `ms`, `s`, `m` or `h` at the end.
pub open spec fn duration_unit(t: Seq<char>) -> Option<(Seq<char>, nat)> {
    if t.len() >= 2 && t[t.len() - 2] == 'm' && t.last() == 's' {
        Some((t.take(t.len() - 2), 1_000_000))
    } else if t.len() >= 1 && t.last() == 's' {
        Some((t.drop_last(), 1_000_000_000))
    } else if t.len() >= 1 && t.last() == 'm' {
        Some((t.drop_last(), 60_000_000_000))
    } else if t.len() >= 1 && t.last() == 'h' {
        Some((t.drop_last(), 3_600_000_000_000))
    } else {
        None
    }
}

/// What a configured duration reads as, in nanoseconds, or the message of
/// why it does not. A number of minutes or hours whose seconds do not fit
/// in a `u64` is refused as an invalid number.
pub open spec fn spec_parse_duration(s: Seq<char>) -> Result<nat, Seq<char>> {
    let t = trim_ws(s);
    if t.len() == 0 {
        Err("empty duration string"@)
    } else {
        match duration_unit(t) {
            None => Err("invalid duration format: "@ + t),
            Some((v, scale)) => match spec_parse_unsigned(v, 0xffff_ffff_ffff_ffff) {
                Some(n) if n * (scale / 1_000_000_000) <= 0xffff_ffff_ffff_ffff || scale < 1_000_000_000 => Ok(n * scale),
                _ => Err("invalid numeric value: "@ + v),
            },
        }
    }
}

/// Reads a configured duration such as `500ms`, `30s`, `5m` or `2h`
/// (surrounding whitespace is ignored) as nanoseconds.
pub fn parse_duration(s: &str) -> (r: Result<Nanos, String>)
    ensures
        match r {
            Ok(d) => spec_parse_duration(s@) == Ok::<nat, Seq<char>>(d as nat),
            Err(m) => spec_parse_duration(s@) == Err::<nat, Seq<char>>(m@),
        },
{
    let t = trim_text(s);
    let n = t.len();
    if n == 0 {
        return Err(string_from_chars(chars_of("empty duration string").as_slice()));
    }
    let (vlen, scale): (usize, u128) = if n >= 2 && t[n - 2] == 'm' && t[n - 1] == 's' {
        (n - 2, 1_000_000)
    } else if t[n - 1] == 's' {
        (n - 1, 1_000_000_000)
    } else if t[n - 1] == 'm' {
        (n - 1, 60_000_000_000)
    } else if t[n - 1] == 'h' {
        (n - 1, 3_600_000_000_000)
    } else {
        let mut m: Vec<char> = Vec::new();
        append_str(&mut m, "invalid duration format: ");
        let ghost before = m@;
        let mut i: usize = 0;
        while i < n
            invariant
                i <= n == t@.len(),
                m@ == before + t@.take(i as int),
            decreases n - i,
        {
            m.push(t[i]);
            assert(m@ =~= before + t@.take(i as int + 1));
            i += 1;
        }
        assert(t@.take(n as int) =~= t@);
        return Err(string_from_chars(m.as_slice()));
    };
    let mut v: Vec<char> = Vec::new();
    let mut i: usize = 0;
    while i < vlen
        invariant
            i <= vlen < n == t@.len(),
            v@ == t@.take(i as int),
        decreases vlen - i,
    {
        v.push(t[i]);
        assert(v@ =~= t@.take(i as int + 1));
        i += 1;
    }
    assert(duration_unit(t@) == Some((v@, scale as nat))) by {
        if vlen + 1 == n {
            assert(v@ =~= t@.drop_last());
        }
    }
    let parsed = parse_unsigned(v.as_slice(), 0xffff_ffff_ffff_ffff);
    match parsed {
        Some(value) => {
            assert((value as u128) * (scale / 1_000_000_000) <= 0xffff_ffff_ffff_ffff * 3600) by (nonlinear_arith)
                requires
                    value <= 0xffff_ffff_ffff_ffff,
                    scale / 1_000_000_000 <= 3600;
            if scale < 1_000_000_000 || (value as u128) * (scale / 1_000_000_000) <= 0xffff_ffff_ffff_ffff {
                assert((value as u128) * scale <= 0xffff_ffff_ffff_ffff * 3_600_000_000_000) by (nonlinear_arith)
                    requires
                        value <= 0xffff_ffff_ffff_ffff,
                        scale <= 3_600_000_000_000;
                Ok((value as u128) * scale)
            } else {
                let mut m: Vec<char> = Vec::new();
                append_str(&mut m, "invalid numeric value: ");
                let ghost before = m@;
                let mut k: usize = 0;
                while k < vlen
                    invariant
                        k <= vlen == v@.len(),
                        m@ == before + v@.take(k as int),
                    decreases vlen - k,
                {
                    m.push(v[k]);
                    assert(m@ =~= before + v@.take(k as int + 1));
                    k += 1;
                }
                assert(v@.take(vlen as int) =~= v@);
                Err(string_from_chars(m.as_slice()))
            }
        },
        None => {
            let mut m: Vec<char> = Vec::new();
            append_str(&mut m, "invalid numeric value: ");
            let ghost before = m@;
            let mut k: usize = 0;
            while k < vlen
                invariant
                    k <= vlen == v@.len(),
                    m@ == before + v@.take(k as int),
                decreases vlen - k,
            {
                m.push(v[k]);
                assert(m@ =~= before + v@.take(k as int + 1));
                k += 1;
            }
            assert(v@.take(vlen as int) =~= v@);
            Err(string_from_chars(m.as_slice()))
        },
    }
}

/// The largest duration, in nanoseconds, that a `Duration` holds.
pub open spec fn max_duration_nanos() -> nat {
    18_446_744_073_709_551_615_999_999_999
}

/// How a duration is written in the configuration: whole hours, whole
/// minutes or whole seconds when its whole seconds are a positive number
/// of them (the part below a second is dropped), else whole milliseconds.
pub open spec fn spec_format_duration(d: nat) -> Seq<char> {
    let secs = d / 1_000_000_000;
    if secs % 3600 == 0 && secs > 0 {
        spec_decimal(secs / 3600) + "h"@
    } else if secs % 60 == 0 && secs > 0 {
        spec_decimal(secs / 60) + "m"@
    } else if secs > 0 {
        spec_decimal(secs) + "s"@
    } else {
        spec_decimal(d / 1_000_000) + "ms"@
    }
}

/// Writes a duration the way the configuration reads it.
pub fn format_duration(d: Nanos) -> (s: String)
    requires
        d <= max_duration_nanos(),
    ensures
        s@ == spec_format_duration(d as nat),
{
    let secs: u128 = d / 1_000_000_000;
    assert(secs < 0x1_0000_0000_0000_0000) by (nonlinear_arith)
        requires
            secs == d / 1_000_000_000,
            d <= 0x1_0000_0000_0000_0000 * 1_000_000_000 - 1;
    let secs64: u64 = secs as u64;
    let mut out: Vec<char>;
    if secs64 % 3600 == 0 && secs64 > 0 {
        out = decimal_chars(secs64 / 3600);
        out.push('h');
        assert(out@ =~= spec_decimal((secs / 3600) as nat) + "h"@) by {
            reveal_strlit("h");
        }
    } else if secs64 % 60 == 0 && secs64 > 0 {
        out = decimal_chars(secs64 / 60);
        out.push('m');
        assert(out@ =~= spec_decimal((secs / 60) as nat) + "m"@) by {
            reveal_strlit("m");
        }
    } else if secs64 > 0 {
        out = decimal_chars(secs64);
        out.push('s');
        assert(out@ =~= spec_decimal(secs as nat) + "s"@) by {
            reveal_strlit("s");
        }
    } else {
        let ms: u128 = d / 1_000_000;
        assert(ms < 1000);
        out = decimal_chars(ms as u64);
        out.push('m');
        out.push('s');
        assert(out@ =~= spec_decimal(ms as nat) + "ms"@) by {
            reveal_strlit("ms");
        }
    }
    string_from_chars(out.as_slice())
}

proof fn lemma_no_ws_trim(t: Seq<char>)
    requires
        t.len() > 0,
        !spec_is_whitespace(t[0]),
        !spec_is_whitespace(t.last()),
    ensures
        trim_ws(t) == t,
{
}

proof fn lemma_digits_end(s: Seq<char>, suffix: Seq<char>)
    requires
        s.len() > 0,
        all_digits(s),
        suffix.len() > 0,
        !spec_is_whitespace(suffix.last()),
    ensures
        trim_ws(s + suffix) == s + suffix,
        spec_parse_unsigned(s, 0xffff_ffff_ffff_ffff) == (if digits_value(s) <= 0xffff_ffff_ffff_ffff { Some(digits_value(s)) } else { None::<nat> }),
{
    let t = s + suffix;
    assert(t[0] == s[0]);
    assert(is_ascii_digit(s[0]));
    lemma_no_ws_trim(t);
}

/// An optional duration as written in a configuration: `infinite` for no
/// limit, else a duration.
pub open spec fn spec_parse_optional_duration(s: Seq<char>) -> Result<Option<nat>, Seq<char>> {
    if s == "infinite"@ {
        Ok(None)
    } else {
        match spec_parse_duration(s) {
            Ok(n) => Ok(Some(n)),
            Err(e) => Err(e),
        }
    }
}

/// How an optional duration is written: `infinite` for no limit.
pub open spec fn spec_format_optional_duration(d: Option<nat>) -> Seq<char> {
    match d {
        Some(n) => spec_format_duration(n),
        None => "infinite"@,
    }
}

/// Reads an optional duration: `infinite` is no limit.
pub fn parse_optional_duration(s: &str) -> (r: Result<Option<Nanos>, String>)
    ensures
        match r {
            Ok(Some(d)) => spec_parse_optional_duration(s@) == Ok::<Option<nat>, Seq<char>>(Some(d as nat)),
            Ok(None) => spec_parse_optional_duration(s@) == Ok::<Option<nat>, Seq<char>>(None),
            Err(m) => spec_parse_optional_duration(s@) == Err::<Option<nat>, Seq<char>>(m@),
        },
{
    if crate::text::str_eq(s, "infinite") {
        Ok(None)
    } else {
        match parse_duration(s) {
            Ok(d) => Ok(Some(d)),
            Err(e) => Err(e),
        }
    }
}

/// Writes an optional duration: `infinite` for no limit.
pub fn format_optional_duration(d: Option<Nanos>) -> (s: String)
    requires
        d matches Some(n) ==> n <= max_duration_nanos(),
    ensures
        s@ == spec_format_optional_duration(match d { Some(n) => Some(n as nat), None => None }),
{
    match d {
        Some(n) => format_duration(n),
        None => String::from_str("infinite"),
    }
}

/// Law: no limit, a duration of whole seconds, or one of whole milliseconds
/// below a second reads back from how it is written (`infinite` for no
/// limit).
pub proof fn law_optional_duration_round_trip(d: Option<nat>)
    requires
        d matches Some(n) ==> n <= max_duration_nanos()
            && (n % 1_000_000_000 == 0 || (n < 1_000_000_000 && n % 1_000_000 == 0)),
    ensures
        spec_parse_optional_duration(spec_format_optional_duration(d)) == Ok::<Option<nat>, Seq<char>>(d),
{
    reveal_strlit("infinite");
    match d {
        Some(n) => {
            law_duration_round_trip(n);
            let f = spec_format_duration(n);
            reveal_strlit("h");
            reveal_strlit("m");
            reveal_strlit("s");
            reveal_strlit("ms");
            assert(f.len() > 0 && f.last() != 'e');
            assert(f != "infinite"@);
        },
        None => {},
    }
}

/// Law: a duration of whole seconds, or of whole milliseconds below a
/// second, reads back from how it is written.
pub proof fn law_duration_round_trip(d: nat)
    requires
        d <= max_duration_nanos(),
        d % 1_000_000_000 == 0 || (d < 1_000_000_000 && d % 1_000_000 == 0),
    ensures
        spec_parse_duration(spec_format_duration(d)) == Ok::<nat, Seq<char>>(d),
{
    let secs = d / 1_000_000_000;
    assert(secs < 0x1_0000_0000_0000_0000) by (nonlinear_arith)
        requires
            secs == d / 1_000_000_000,
            d <= 0x1_0000_0000_0000_0000 * 1_000_000_000 - 1;
    let f = spec_format_duration(d);
    if secs % 3600 == 0 && secs > 0 {
        let n = secs / 3600;
        assert(d % 1_000_000_000 == 0);
        assert(n * 3_600_000_000_000 == d && n * 3600 <= 0xffff_ffff_ffff_ffff) by (nonlinear_arith)
            requires
                n == secs / 3600,
                secs == d / 1_000_000_000,
                secs % 3600 == 0,
                d % 1_000_000_000 == 0,
                secs < 0x1_0000_0000_0000_0000;
        lemma_decimal_digits(n);
        reveal_strlit("h");
        lemma_digits_end(spec_decimal(n), "h"@);
        assert(duration_unit(f) == Some((spec_decimal(n), 3_600_000_000_000nat))) by {
            assert(f.drop_last() =~= spec_decimal(n));
        }
    } else if secs % 60 == 0 && secs > 0 {
        let n = secs / 60;
        assert(d % 1_000_000_000 == 0);
        assert(n * 60_000_000_000 == d && n * 60 <= 0xffff_ffff_ffff_ffff) by (nonlinear_arith)
            requires
                n == secs / 60,
                secs == d / 1_000_000_000,
                secs % 60 == 0,
                d % 1_000_000_000 == 0,
                secs < 0x1_0000_0000_0000_0000;
        lemma_decimal_digits(n);
        reveal_strlit("m");
        lemma_digits_end(spec_decimal(n), "m"@);
        assert(duration_unit(f) == Some((spec_decimal(n), 60_000_000_000nat))) by {
            assert(f.drop_last() =~= spec_decimal(n));
            assert(f[f.len() - 2] == spec_decimal(n).last());
            assert(is_ascii_digit(spec_decimal(n).last()));
        }
    } else if secs > 0 {
        assert(d % 1_000_000_000 == 0);
        assert(secs * 1_000_000_000 == d) by (nonlinear_arith)
            requires
                secs == d / 1_000_000_000,
                d % 1_000_000_000 == 0;
        lemma_decimal_digits(secs);
        reveal_strlit("s");
        lemma_digits_end(spec_decimal(secs), "s"@);
        assert(duration_unit(f) == Some((spec_decimal(secs), 1_000_000_000nat))) by {
            assert(f.drop_last() =~= spec_decimal(secs));
            assert(f[f.len() - 2] == spec_decimal(secs).last());
            assert(is_ascii_digit(spec_decimal(secs).last()));
        }
    } else {
        let ms = d / 1_000_000;
        assert(d < 1_000_000_000);
        assert(d % 1_000_000 == 0) by {
            if d % 1_000_000_000 == 0 {
                assert(d == 0);
            }
        }
        assert(ms * 1_000_000 == d) by (nonlinear_arith)
            requires
                ms == d / 1_000_000,
                d % 1_000_000 == 0;
        lemma_decimal_digits(ms);
        reveal_strlit("ms");
        lemma_digits_end(spec_decimal(ms), "ms"@);
        assert(duration_unit(f) == Some((spec_decimal(ms), 1_000_000nat))) by {
            assert(f.take(f.len() - 2) =~= spec_decimal(ms));
        }
    }
}

} // verus!

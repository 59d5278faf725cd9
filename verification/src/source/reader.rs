use vstd::prelude::*;
use crate::config::types::{ParseErrorStrategy, ReadConfig, ReadStart, SourceConfig};
use crate::source::timestamp::{extract_outcome, TimestampError, TimestampExtractor};
use crate::text::{chars_of, string_from_chars, concat_str};
use crate::time::{Timestamp, valid_timestamp};

verus! {

/// One log record: a line (with its continuation lines) read from a source.
pub struct LogRecord {
    /// Unique identifier of the record.
    pub id: u128,
    /// When the record was logged, in nanoseconds since the epoch.
    pub timestamp: Timestamp,
    /// The source the record was read from.
    pub source_id: String,
    /// The text of the record, continuation lines joined by newlines.
    pub raw_text: String,
    /// Byte offset in the source file where the record starts.
    pub file_offset: u64,
}

impl Clone for LogRecord {
    fn clone(&self) -> (r: Self)
        ensures
            r == *self,
    {
        LogRecord {
            id: self.id,
            timestamp: self.timestamp,
            source_id: self.source_id.clone(),
            raw_text: self.raw_text.clone(),
            file_offset: self.file_offset,
        }
    }
}

/// Errors met while reading a source.
#[derive(Debug)]
pub enum ReaderError {
    /// The file could not be read (the message of the I/O error).
    Io(String),
    /// The timestamp of a line could not be read.
    Timestamp(TimestampError),
    /// A line does not belong to any record.
    ParseError(String),
}

/// A record being assembled: its first line and the continuation lines so far.
pub struct BufferedLine {
    pub text: String,
    pub timestamp: Timestamp,
    pub start_offset: u64,
}

/// What a line read from the source leads to.
pub enum LineOutcome {
    /// A record is complete.
    Record(LogRecord),
    /// Nothing to hand out yet: read on.
    Continue,
    /// The line is refused.
    Failed(ReaderError),
}

/// `char::is_whitespace`: the characters with the Unicode White_Space property.
pub open spec fn spec_is_whitespace(c: char) -> bool {
    ||| ('\u{9}' <= c && c <= '\u{d}')
    ||| c == ' '
    ||| c == '\u{85}'
    ||| c == '\u{a0}'
    ||| c == '\u{1680}'
    ||| ('\u{2000}' <= c && c <= '\u{200a}')
    ||| c == '\u{2028}'
    ||| c == '\u{2029}'
    ||| c == '\u{202f}'
    ||| c == '\u{205f}'
    ||| c == '\u{3000}'
}

pub fn is_whitespace(c: char) -> (b: bool)
    ensures
        b == spec_is_whitespace(c),
{
    ('\u{9}' <= c && c <= '\u{d}') || c == ' ' || c == '\u{85}' || c == '\u{a0}' || c == '\u{1680}'
        || ('\u{2000}' <= c && c <= '\u{200a}') || c == '\u{2028}' || c == '\u{2029}' || c == '\u{202f}'
        || c == '\u{205f}' || c == '\u{3000}'
}

/// The line without its trailing newline and carriage-return characters.
pub open spec fn trim_line_end(s: Seq<char>) -> Seq<char>
    decreases s.len(),
{
    if s.len() > 0 && (s.last() == '\n' || s.last() == '\r') {
        trim_line_end(s.drop_last())
    } else {
        s
    }
}

/// Strips trailing newline and carriage-return characters.
pub fn trim_line(line: &str) -> (r: String)
    ensures
        r@ == trim_line_end(line@),
{
    let cs = chars_of(line);
    let mut n = cs.len();
    assert(cs@.take(n as int) =~= cs@);
    while n > 0 && (cs[n - 1] == '\n' || cs[n - 1] == '\r')
        invariant
            n <= cs@.len(),
            trim_line_end(cs@) == trim_line_end(cs@.take(n as int)),
        decreases n,
    {
        assert(cs@.take(n as int).drop_last() =~= cs@.take(n as int - 1));
        n -= 1;
    }
    let mut out: Vec<char> = Vec::new();
    let mut i: usize = 0;
    while i < n
        invariant
            n <= cs@.len(),
            i <= n,
            out@ == cs@.take(i as int),
        decreases n - i,
    {
        out.push(cs[i]);
        assert(out@ =~= cs@.take(i as int + 1));
        i += 1;
    }
    string_from_chars(out.as_slice())
}

/// Reads one source: assembles its lines into records. The file itself is
/// read by the caller, who hands each line (or the end of the file) in.
pub struct SourceReader {
    source_id: String,
    path: String,
    timestamp_extractor: TimestampExtractor,
    read_config: ReadConfig,
    parse_error_strategy: ParseErrorStrategy,
    current_offset: u64,
    buffered_line: Option<BufferedLine>,
    last_watermark: Option<Timestamp>,
    last_emitted_offset: u64,
    file_inode: Option<u64>,
    eof_reached: bool,
}

/// A buffered record as the contracts see it.
pub open spec fn buffered_view(b: Option<BufferedLine>) -> Option<(Seq<char>, Timestamp, u64)> {
    match b {
        Some(l) => Some((l.text@, l.timestamp, l.start_offset)),
        None => None,
    }
}

impl SourceReader {
    pub closed spec fn wf(&self) -> bool {
        &&& self.timestamp_extractor.wf()
        &&& (self.buffered_line matches Some(b) ==> valid_timestamp(b.timestamp))
    }

    pub closed spec fn offset(&self) -> u64 {
        self.current_offset
    }

    pub closed spec fn emitted_offset(&self) -> u64 {
        self.last_emitted_offset
    }

    pub closed spec fn buffered(&self) -> Option<(Seq<char>, Timestamp, u64)> {
        buffered_view(self.buffered_line)
    }

    pub closed spec fn last_watermark(&self) -> Option<Timestamp> {
        self.last_watermark
    }

    pub closed spec fn strategy(&self) -> ParseErrorStrategy {
        self.parse_error_strategy
    }

    pub closed spec fn id(&self) -> Seq<char> {
        self.source_id@
    }

    pub closed spec fn start(&self) -> ReadStart {
        self.read_config.start
    }

    pub closed spec fn follows(&self) -> bool {
        self.read_config.follow
    }

    pub closed spec fn extractor(&self) -> TimestampExtractor {
        self.timestamp_extractor
    }

    pub closed spec fn at_eof(&self) -> bool {
        self.eof_reached
    }

    /// The path of the file read.
    pub closed spec fn file_path(&self) -> Seq<char> {
        self.path@
    }

    /// The inode of the file read, once it is open.
    pub closed spec fn inode(&self) -> Option<u64> {
        self.file_inode
    }

    /// A reader of the source, at offset 0 with nothing buffered; fails when
    /// the timestamp pattern or format is refused.
    pub fn new(source_id: String, config: &SourceConfig, parse_error_strategy: ParseErrorStrategy) -> (r: Result<SourceReader, ReaderError>)
        ensures
            match r {
                Ok(rd) => rd.wf() && rd.id() == source_id@ && rd.offset() == 0 && rd.emitted_offset() == 0
                    && rd.buffered() is None && rd.last_watermark() is None && rd.strategy() == parse_error_strategy
                    && rd.start() == config.read.start && rd.follows() == config.read.follow
                    && rd.extractor().pattern() == config.timestamp.pattern@ && !rd.at_eof()
                    && rd.file_path() == config.path@ && rd.inode() is None,
                Err(e) => e matches ReaderError::Timestamp(_),
            },
    {
        let timestamp_extractor = match TimestampExtractor::new(config.timestamp.pattern.as_str(), config.timestamp.format.as_str()) {
            Ok(x) => x,
            Err(e) => {
                return Err(ReaderError::Timestamp(e));
            },
        };
        Ok(SourceReader {
            source_id,
            path: config.path.clone(),
            timestamp_extractor,
            read_config: ReadConfig { start: config.read.start, follow: config.read.follow },
            parse_error_strategy,
            current_offset: 0,
            buffered_line: None,
            last_watermark: None,
            last_emitted_offset: 0,
            file_inode: None,
            eof_reached: false,
        })
    }

    /// A reader that resumes at a stored offset.
    pub fn new_with_offset(source_id: String, config: &SourceConfig, parse_error_strategy: ParseErrorStrategy, offset: u64) -> (r: Result<SourceReader, ReaderError>)
        ensures
            match r {
                Ok(rd) => rd.wf() && rd.id() == source_id@ && rd.offset() == offset && rd.emitted_offset() == offset
                    && rd.buffered() is None && rd.last_watermark() is None && rd.strategy() == parse_error_strategy
                    && rd.start() == ReadStart::StoredOffset && rd.follows() == config.read.follow
                    && rd.extractor().pattern() == config.timestamp.pattern@ && !rd.at_eof()
                    && rd.file_path() == config.path@ && rd.inode() is None,
                Err(e) => e matches ReaderError::Timestamp(_),
            },
    {
        let mut reader = match SourceReader::new(source_id, config, parse_error_strategy) {
            Ok(r) => r,
            Err(e) => {
                return Err(e);
            },
        };
        reader.current_offset = offset;
        reader.last_emitted_offset = offset;
        reader.read_config.start = ReadStart::StoredOffset;
        Ok(reader)
    }

    pub fn source_id(&self) -> (s: &str)
        ensures
            s@ == self.id(),
    {
        self.source_id.as_str()
    }

    /// The path of the file.
    pub fn path(&self) -> (s: &str)
        ensures
            s@ == self.file_path(),
    {
        self.path.as_str()
    }

    /// The timestamp of the last emitted record.
    pub fn watermark(&self) -> (w: Option<Timestamp>)
        ensures
            w == self.last_watermark(),
    {
        self.last_watermark
    }

    /// The offset to resume from: just after the last emitted record.
    pub fn checkpoint_offset(&self) -> (o: u64)
        ensures
            o == self.emitted_offset(),
    {
        self.last_emitted_offset
    }

    /// The inode of the open file.
    pub fn file_inode(&self) -> (i: Option<u64>)
        ensures
            i == self.inode(),
    {
        self.file_inode
    }

    /// Whether records follow the file as it grows.
    pub fn follow(&self) -> (b: bool)
        ensures
            b == self.follows(),
    {
        self.read_config.follow
    }

    /// The file was opened: records its inode and length and returns the
    /// offset to read from (0, the end, or the stored offset).
    pub fn opened(&mut self, inode: u64, file_len: u64) -> (at: u64)
        ensures
            at == match old(self).start() {
                ReadStart::Beginning => 0,
                ReadStart::End => file_len,
                ReadStart::StoredOffset => old(self).offset(),
            },
            final(self).offset() == at,
            !final(self).at_eof(),
            final(self).wf() == old(self).wf(),
            final(self).buffered() == old(self).buffered(),
            final(self).emitted_offset() == old(self).emitted_offset(),
            final(self).last_watermark() == old(self).last_watermark(),
            final(self).strategy() == old(self).strategy(),
            final(self).extractor() == old(self).extractor(),
            final(self).id() == old(self).id(),
            final(self).file_path() == old(self).file_path(),
            final(self).inode() == Some(inode),
            final(self).follows() == old(self).follows(),
            final(self).start() == old(self).start(),
    {
        self.file_inode = Some(inode);
        match self.read_config.start {
            ReadStart::Beginning => {
                self.current_offset = 0;
            },
            ReadStart::End => {
                self.current_offset = file_len;
            },
            ReadStart::StoredOffset => {},
        }
        self.eof_reached = false;
        self.current_offset
    }

    /// The file was replaced (rotated): reading starts over from its beginning.
    pub fn rotated(&mut self)
        ensures
            final(self).offset() == 0,
            !final(self).at_eof(),
            final(self).wf() == old(self).wf(),
            final(self).buffered() == old(self).buffered(),
            final(self).emitted_offset() == old(self).emitted_offset(),
            final(self).last_watermark() == old(self).last_watermark(),
            final(self).extractor() == old(self).extractor(),
            final(self).strategy() == old(self).strategy(),
            final(self).id() == old(self).id(),
            final(self).file_path() == old(self).file_path(),
            final(self).inode() == old(self).inode(),
            final(self).follows() == old(self).follows(),
            final(self).start() == old(self).start(),
    {
        self.current_offset = 0;
        self.eof_reached = false;
    }

    fn take_record(&mut self) -> (r: Option<LogRecord>)
        requires
            old(self).wf(),
        ensures
            final(self).wf(),
            final(self).buffered() is None,
            match old(self).buffered() {
                Some(b) => r matches Some(rec) && rec.raw_text@ == b.0 && rec.timestamp == b.1 && rec.file_offset == b.2
                    && rec.source_id@ == old(self).id() && valid_timestamp(rec.timestamp),
                None => r is None,
            },
            final(self).offset() == old(self).offset(),
            final(self).emitted_offset() == old(self).emitted_offset(),
            final(self).last_watermark() == old(self).last_watermark(),
            final(self).extractor() == old(self).extractor(),
            final(self).strategy() == old(self).strategy(),
            final(self).id() == old(self).id(),
            final(self).file_path() == old(self).file_path(),
            final(self).inode() == old(self).inode(),
            final(self).follows() == old(self).follows(),
            final(self).start() == old(self).start(),
            final(self).at_eof() == old(self).at_eof(),
    {
        match self.buffered_line.take() {
            Some(b) => Some(LogRecord {
                id: crate::ids::new_id(),
                timestamp: b.timestamp,
                source_id: self.source_id.clone(),
                raw_text: b.text,
                file_offset: b.start_offset,
            }),
            None => None,
        }
    }

    /// The end of the file was reached: the record being assembled, if
    /// any, is complete (and the resume offset moves to the end).
    pub fn on_eof(&mut self) -> (r: Option<LogRecord>)
        requires
            old(self).wf(),
        ensures
            final(self).wf(),
            final(self).at_eof(),
            final(self).buffered() is None,
            final(self).offset() == old(self).offset(),
            match old(self).buffered() {
                Some(b) => r matches Some(rec) && rec.raw_text@ == b.0 && rec.timestamp == b.1 && rec.file_offset == b.2
                    && rec.source_id@ == old(self).id()
                    && final(self).last_watermark() == Some(b.1)
                    && final(self).emitted_offset() == old(self).offset(),
                None => r is None && final(self).last_watermark() == old(self).last_watermark()
                    && final(self).emitted_offset() == old(self).emitted_offset(),
            },
            final(self).extractor() == old(self).extractor(),
            final(self).strategy() == old(self).strategy(),
            final(self).id() == old(self).id(),
            final(self).file_path() == old(self).file_path(),
            final(self).inode() == old(self).inode(),
            final(self).follows() == old(self).follows(),
            final(self).start() == old(self).start(),
    {
        self.eof_reached = true;
        match self.take_record() {
            Some(rec) => {
                self.last_watermark = Some(rec.timestamp);
                self.last_emitted_offset = self.current_offset;
                Some(rec)
            },
            None => None,
        }
    }
}


/// The line is a continuation line: it starts with whitespace.
pub open spec fn is_continuation(line: Seq<char>) -> bool {
    line.len() > 0 && spec_is_whitespace(line[0])
}

/// What a line leads to (see `on_extracted`): reader `o` becomes `f` and
/// gives `out` for the line `line` that starts at `line_start` and whose
/// timestamp was read as `extracted`.
pub open spec fn line_effect(o: SourceReader, f: SourceReader, line: Seq<char>, line_start: u64,
    extracted: Result<Option<Timestamp>, TimestampError>, out: LineOutcome) -> bool {
    &&& f.wf()
    &&& f.extractor() == o.extractor()
    &&& f.strategy() == o.strategy()
    &&& f.id() == o.id()
    &&& f.file_path() == o.file_path()
    &&& f.inode() == o.inode()
    &&& f.follows() == o.follows()
    &&& f.start() == o.start()
    &&& f.at_eof() == o.at_eof()
    &&& match extracted {
            Ok(Some(ts)) => {
                &&& f.buffered() == Some((line, ts, line_start))
                &&& match o.buffered() {
                    Some(b) => out matches LineOutcome::Record(rec) && rec.raw_text@ == b.0 && rec.timestamp == b.1
                        && rec.file_offset == b.2 && rec.source_id@ == o.id()
                        && f.last_watermark() == Some(b.1) && f.emitted_offset() == line_start,
                    None => out is Continue && f.last_watermark() == o.last_watermark()
                        && f.emitted_offset() == o.emitted_offset(),
                }
            },
            Ok(None) => {
                &&& f.last_watermark() == o.last_watermark()
                &&& f.emitted_offset() == o.emitted_offset()
                &&& if is_continuation(line) && o.buffered() is Some {
                    let b = o.buffered()->0;
                    out is Continue && f.buffered() == Some((b.0 + seq!['\n'] + line, b.1, b.2))
                } else {
                    &&& f.buffered() == o.buffered()
                    &&& match o.strategy() {
                        ParseErrorStrategy::Drop => out is Continue,
                        ParseErrorStrategy::Panic => out matches LineOutcome::Failed(ReaderError::ParseError(msg))
                            && msg@ == if is_continuation(line) {
                                "continuation line without initial timestamp: "@ + line
                            } else {
                                "line without timestamp: "@ + line
                            },
                    }
                }
            },
            Err(_) => {
                &&& f.buffered() == o.buffered()
                &&& f.last_watermark() == o.last_watermark()
                &&& f.emitted_offset() == o.emitted_offset()
                &&& match o.strategy() {
                    ParseErrorStrategy::Drop => out is Continue,
                    ParseErrorStrategy::Panic => out matches LineOutcome::Failed(ReaderError::Timestamp(_)),
                }
            },
        }
}

/// Law: a line without a timestamp that starts with whitespace (a space, a
/// tab, or any other character that `char::is_whitespace` accepts) is
/// appended, after a newline, to the record being assembled, and nothing is
/// given out yet.
pub proof fn law_whitespace_line_continues_record(
    o: SourceReader,
    f: SourceReader,
    line: Seq<char>,
    line_start: u64,
    out: LineOutcome,
)
    requires
        line_effect(o, f, line, line_start, Ok(None), out),
        o.buffered() is Some,
        line.len() > 0,
        line[0] == ' ' || line[0] == '\t' || spec_is_whitespace(line[0]),
    ensures
        out is Continue,
        o.buffered() matches Some(b) ==> f.buffered() == Some((b.0 + seq!['\n'] + line, b.1, b.2)),
        f.last_watermark() == o.last_watermark(),
{
}

/// Law: a line without a timestamp that does not start with whitespace is
/// never added to a record: the record being assembled stays as it was.
pub proof fn law_other_line_leaves_record(
    o: SourceReader,
    f: SourceReader,
    line: Seq<char>,
    line_start: u64,
    out: LineOutcome,
)
    requires
        line_effect(o, f, line, line_start, Ok(None), out),
        !(line.len() > 0 && spec_is_whitespace(line[0])),
    ensures
        f.buffered() == o.buffered(),
        out is Continue || out is Failed,
{
}

/// Reader `o` read the line `line` (its line ending stripped), which starts
/// at `o`'s offset, and became `f` with outcome `out`: its timestamp was read
/// by the extractor, and the line had the effect that `line_effect` gives.
pub open spec fn line_read(o: SourceReader, f: SourceReader, line: Seq<char>, out: LineOutcome) -> bool {
    exists|ex: Result<Option<Timestamp>, TimestampError>| #[trigger] extract_outcome(o.extractor(), line, ex)
        && line_effect(o, f, line, o.offset(), ex, out)
}

impl SourceReader {
    /// Decides what a line leads to, given the timestamp read from it
    /// (`line_start` is the offset of the line in the file).
    ///
    /// A line with a timestamp starts a record (completing the record being
    /// assembled, if any); a line without one continues the record being
    /// assembled when it starts with whitespace; any other line, and a line
    /// whose timestamp does not read, is dropped or refused according to the
    /// parse-error strategy.
    pub fn on_extracted(&mut self, line: String, line_start: u64, extracted: Result<Option<Timestamp>, TimestampError>) -> (out: LineOutcome)
        requires
            old(self).wf(),
            extracted matches Ok(Some(t)) ==> valid_timestamp(t),
        ensures
            final(self).offset() == old(self).offset(),
            line_effect(*old(self), *final(self), line@, line_start, extracted, out),
    {
        match extracted {
            Ok(Some(ts)) => {
                let prev = self.take_record();
                self.buffered_line = Some(BufferedLine { text: line, timestamp: ts, start_offset: line_start });
                match prev {
                    Some(rec) => {
                        self.last_watermark = Some(rec.timestamp);
                        self.last_emitted_offset = line_start;
                        LineOutcome::Record(rec)
                    },
                    None => LineOutcome::Continue,
                }
            },
            Ok(None) => {
                let cs = chars_of(line.as_str());
                let continuation = cs.len() > 0 && is_whitespace(cs[0]);
                if continuation {
                    match self.buffered_line.take() {
                        Some(b) => {
                            let ghost bt = b.text@;
                            let mut text = b.text;
                            crate::text::push_char(&mut text, '\n');
                            let joined = concat_str(text.as_str(), line.as_str());
                            assert(joined@ == bt + seq!['\n'] + line@);
                            self.buffered_line = Some(BufferedLine { text: joined, timestamp: b.timestamp, start_offset: b.start_offset });
                            assert(self.buffered() == Some((bt + seq!['\n'] + line@, b.timestamp, b.start_offset)));
                            assert(is_continuation(line@) && old(self).buffered() is Some);
                            return LineOutcome::Continue;
                        },
                        None => {},
                    }
                }
                match self.parse_error_strategy {
                    ParseErrorStrategy::Drop => LineOutcome::Continue,
                    ParseErrorStrategy::Panic => {
                        let msg = if continuation {
                            concat_str("continuation line without initial timestamp: ", line.as_str())
                        } else {
                            concat_str("line without timestamp: ", line.as_str())
                        };
                        LineOutcome::Failed(ReaderError::ParseError(msg))
                    },
                }
            },
            Err(e) => match self.parse_error_strategy {
                ParseErrorStrategy::Drop => LineOutcome::Continue,
                ParseErrorStrategy::Panic => LineOutcome::Failed(ReaderError::Timestamp(e)),
            },
        }
    }

    /// A line was read (`bytes_read` bytes, its line ending included): the
    /// offset moves past it, its line ending is stripped, its timestamp is
    /// read, and `on_extracted` decides.
    pub fn on_line(&mut self, raw_line: &str, bytes_read: u64) -> (out: LineOutcome)
        requires
            old(self).wf(),
            old(self).offset() + bytes_read <= u64::MAX,
        ensures
            final(self).wf(),
            final(self).offset() == old(self).offset() + bytes_read,
            line_read(*old(self), *final(self), trim_line_end(raw_line@), out),
    {
        let line_start = self.current_offset;
        self.current_offset = self.current_offset + bytes_read;
        let line = trim_line(raw_line);
        let extracted = self.timestamp_extractor.extract(line.as_str());
        let ghost ex = extracted;
        let out = self.on_extracted(line, line_start, extracted);
        proof {
            assert(extract_outcome(old(self).extractor(), trim_line_end(raw_line@), ex));
            assert(line_effect(*old(self), *final(self), trim_line_end(raw_line@), old(self).offset(), ex, out));
        }
        out
    }
}

} // verus!

use noil::config::types::{ParseErrorStrategy, ReadConfig, ReadStart, SourceConfig, SourceType, TimestampConfig};
use noil::source::reader::{LineOutcome, ReaderError, SourceReader};
use noil::source::reader::LogRecord;

const PATTERN: &str = r"^(?P<ts>\d{4}-\d{2}-\d{2}T\d{2}:\d{2}:\d{2}Z)";

fn create_test_config(start: ReadStart) -> SourceConfig {
    SourceConfig {
        source_type: SourceType::File,
        path: "/var/log/test.log".to_string(),
        timestamp: TimestampConfig { pattern: PATTERN.to_string(), format: "iso8601".to_string() },
        read: ReadConfig { start, follow: false },
    }
}

/// Feeds the lines of an in-memory file to a reader, as the file reader
/// does: each line with its ending, then the end of the file.
struct FileFeed {
    reader: SourceReader,
    content: Vec<u8>,
    pos: usize,
}

impl FileFeed {
    fn open(mut reader: SourceReader, content: &str) -> FileFeed {
        let at = reader.opened(1, content.len() as u64) as usize;
        FileFeed { reader, content: content.as_bytes().to_vec(), pos: at }
    }

    fn next_record(&mut self) -> Result<Option<LogRecord>, ReaderError> {
        loop {
            if self.pos >= self.content.len() {
                return Ok(self.reader.on_eof());
            }
            let rest = &self.content[self.pos..];
            let len = rest.iter().position(|b| *b == b'\n').map(|i| i + 1).unwrap_or(rest.len());
            let line = String::from_utf8(rest[..len].to_vec()).unwrap();
            self.pos += len;
            match self.reader.on_line(&line, len as u64) {
                LineOutcome::Record(r) => return Ok(Some(r)),
                LineOutcome::Continue => {}
                LineOutcome::Failed(e) => return Err(e),
            }
        }
    }
}

fn feed(content: &str, strategy: ParseErrorStrategy) -> FileFeed {
    let reader = SourceReader::new("test".to_string(), &create_test_config(ReadStart::Beginning), strategy).ok().unwrap();
    FileFeed::open(reader, content)
}

#[test]
fn test_single_line_log() {
    let mut f = feed("2025-12-04T10:00:00Z First log line\n2025-12-04T10:00:01Z Second log line\n", ParseErrorStrategy::Panic);
    let record1 = f.next_record().ok().unwrap().unwrap();
    assert_eq!(record1.source_id, "test");
    assert_eq!(record1.raw_text, "2025-12-04T10:00:00Z First log line");
    assert_eq!(record1.file_offset, 0);
    let record2 = f.next_record().ok().unwrap().unwrap();
    assert_eq!(record2.raw_text, "2025-12-04T10:00:01Z Second log line");
    assert!(f.next_record().ok().unwrap().is_none());
}

#[test]
fn test_multiline_log() {
    let mut f = feed(
        "2025-12-04T10:00:00Z Starting process\n  Stack trace line 1\n  Stack trace line 2\n2025-12-04T10:00:01Z Process complete\n",
        ParseErrorStrategy::Panic,
    );
    let record1 = f.next_record().ok().unwrap().unwrap();
    assert_eq!(record1.raw_text, "2025-12-04T10:00:00Z Starting process\n  Stack trace line 1\n  Stack trace line 2");
    let record2 = f.next_record().ok().unwrap().unwrap();
    assert_eq!(record2.raw_text, "2025-12-04T10:00:01Z Process complete");
    assert!(f.next_record().ok().unwrap().is_none());
}

#[test]
fn test_watermark() {
    let mut f = feed("2025-12-04T10:00:00Z First\n2025-12-04T10:00:01Z Second\n", ParseErrorStrategy::Panic);
    assert!(f.reader.watermark().is_none());
    let record1 = f.next_record().ok().unwrap().unwrap();
    assert_eq!(f.reader.watermark().unwrap(), record1.timestamp);
    let record2 = f.next_record().ok().unwrap().unwrap();
    assert_eq!(f.reader.watermark().unwrap(), record2.timestamp);
}

#[test]
fn test_offset_tracking() {
    let mut f = feed("2025-12-04T10:00:00Z First\n2025-12-04T10:00:01Z Second\n", ParseErrorStrategy::Panic);
    let record1 = f.next_record().ok().unwrap().unwrap();
    assert_eq!(record1.file_offset, 0);
    let record2 = f.next_record().ok().unwrap().unwrap();
    // "2025-12-04T10:00:00Z First\n" is 27 bytes.
    assert_eq!(record2.file_offset, 27);
    assert!(record2.file_offset > record1.file_offset);
}

#[test]
fn test_resume_from_offset() {
    let content = "2025-12-04T10:00:00Z First\n2025-12-04T10:00:01Z Second\n";
    let mut f1 = feed(content, ParseErrorStrategy::Panic);
    let _record1 = f1.next_record().ok().unwrap().unwrap();
    let checkpoint_offset = f1.reader.checkpoint_offset();

    let reader2 = SourceReader::new_with_offset(
        "test".to_string(),
        &create_test_config(ReadStart::StoredOffset),
        ParseErrorStrategy::Panic,
        checkpoint_offset,
    )
    .ok()
    .unwrap();
    let mut f2 = FileFeed::open(reader2, content);
    let record2 = f2.next_record().ok().unwrap().unwrap();
    assert_eq!(record2.raw_text, "2025-12-04T10:00:01Z Second");
    assert!(f2.next_record().ok().unwrap().is_none());
}

#[test]
fn test_start_at_end() {
    let reader = SourceReader::new("test".to_string(), &create_test_config(ReadStart::End), ParseErrorStrategy::Panic)
        .ok()
        .unwrap();
    let mut f = FileFeed::open(reader, "2025-12-04T10:00:00Z First\n2025-12-04T10:00:01Z Second\n");
    assert!(f.next_record().ok().unwrap().is_none());
}

#[test]
fn test_parse_error_drop() {
    let mut f = feed("2025-12-04T10:00:00Z First\nINVALID LINE\n2025-12-04T10:00:01Z Second\n", ParseErrorStrategy::Drop);
    let record1 = f.next_record().ok().unwrap().unwrap();
    assert_eq!(record1.raw_text, "2025-12-04T10:00:00Z First");
    let record2 = f.next_record().ok().unwrap().unwrap();
    assert_eq!(record2.raw_text, "2025-12-04T10:00:01Z Second");
}

#[test]
fn test_parse_error_panic() {
    let mut f = feed("INVALID LINE\n", ParseErrorStrategy::Panic);
    assert!(f.next_record().is_err());
}

#[test]
fn test_empty_file() {
    let mut f = feed("", ParseErrorStrategy::Panic);
    assert!(f.next_record().ok().unwrap().is_none());
}

#[test]
fn test_last_line_without_timestamp_emitted_at_eof() {
    let mut f = feed("2025-12-04T10:00:00Z Only line\n", ParseErrorStrategy::Panic);
    let record = f.next_record().ok().unwrap().unwrap();
    assert_eq!(record.raw_text, "2025-12-04T10:00:00Z Only line");
    assert!(f.next_record().ok().unwrap().is_none());
}

#[test]
fn reader_reports_its_file() {
    let reader = SourceReader::new("test".to_string(), &create_test_config(ReadStart::Beginning), ParseErrorStrategy::Panic)
        .ok()
        .unwrap();
    assert_eq!(reader.path(), "/var/log/test.log");
    assert_eq!(reader.file_inode(), None);
    let f = FileFeed::open(reader, "");
    assert_eq!(f.reader.file_inode(), Some(1));
}

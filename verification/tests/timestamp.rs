use chrono::{TimeZone, Utc};
use noil::source::timestamp::{TimestampError, TimestampExtractor};

fn rfc3339(n: i128) -> String {
    Utc.timestamp_nanos(n as i64).to_rfc3339()
}

fn secs(n: i128) -> i64 {
    Utc.timestamp_nanos(n as i64).timestamp()
}

#[test]
fn test_iso8601_basic() {
    let extractor = TimestampExtractor::new(r"^(?P<ts>\d{4}-\d{2}-\d{2}T\d{2}:\d{2}:\d{2}\.\d+Z)", "iso8601").unwrap();
    let result = extractor.extract("2025-12-04T02:42:11.011Z some log message").unwrap().unwrap();
    assert_eq!(rfc3339(result), "2025-12-04T02:42:11.011+00:00");
}

#[test]
fn test_iso8601_with_offset() {
    let extractor =
        TimestampExtractor::new(r"^(?P<ts>\d{4}-\d{2}-\d{2}T\d{2}:\d{2}:\d{2}[+-]\d{2}:\d{2})", "iso8601").unwrap();
    let result = extractor.extract("2025-12-04T02:42:11+05:30 some log message").unwrap().unwrap();
    assert_eq!(rfc3339(result), "2025-12-03T21:12:11+00:00");
}

#[test]
fn test_nginx_format() {
    let extractor = TimestampExtractor::new(
        r"\[(?P<ts>\d{2}/\w{3}/\d{4}:\d{2}:\d{2}:\d{2} [+-]\d{4})\]",
        "%d/%b/%Y:%H:%M:%S %z",
    )
    .unwrap();
    let result = extractor.extract("[04/Dec/2025:02:42:11 +0000] GET /index.html").unwrap().unwrap();
    assert_eq!(rfc3339(result), "2025-12-04T02:42:11+00:00");
}

#[test]
fn test_epoch_seconds() {
    let extractor = TimestampExtractor::new(r"^(?P<ts>\d{10})", "epoch").unwrap();
    let result = extractor.extract("1733280131 log message").unwrap().unwrap();
    assert_eq!(secs(result), 1733280131);
}

#[test]
fn test_epoch_milliseconds() {
    let extractor = TimestampExtractor::new(r"^(?P<ts>\d{13})", "epoch_ms").unwrap();
    let result = extractor.extract("1733280131011 log message").unwrap().unwrap();
    let t = Utc.timestamp_nanos(result as i64);
    assert_eq!(t.timestamp(), 1733280131);
    assert_eq!(t.timestamp_subsec_millis(), 11);
}

#[test]
fn test_custom_strptime_comma_millis() {
    let extractor =
        TimestampExtractor::new(r"^(?P<ts>\d{4}-\d{2}-\d{2} \d{2}:\d{2}:\d{2},\d{3})", "%Y-%m-%d %H:%M:%S,%3f").unwrap();
    let result = extractor.extract("2025-12-04 02:42:11,011 log message").unwrap().unwrap();
    assert_eq!(rfc3339(result), "2025-12-04T02:42:11.011+00:00");
}

#[test]
fn test_no_match_returns_none() {
    let extractor = TimestampExtractor::new(r"^(?P<ts>\d{4}-\d{2}-\d{2})", "iso8601").unwrap();
    let result = extractor.extract("this line has no timestamp").unwrap();
    assert!(result.is_none());
}

#[test]
fn test_missing_ts_group_error() {
    let result = TimestampExtractor::new(r"^\d{4}-\d{2}-\d{2}", "iso8601");
    assert!(matches!(result, Err(TimestampError::MissingTsGroup)));
}

#[test]
fn test_invalid_regex() {
    let result = TimestampExtractor::new(r"(?P<ts>[invalid", "iso8601");
    assert!(matches!(result, Err(TimestampError::InvalidRegex(_))));
}

#[test]
fn test_unparseable_timestamp() {
    let extractor = TimestampExtractor::new(r"^(?P<ts>\S+)", "epoch").unwrap();
    let result = extractor.extract("not_a_number log message");
    assert!(matches!(result, Err(TimestampError::ParseError { .. })));
}

#[test]
fn test_timezone_aware_strptime() {
    let extractor =
        TimestampExtractor::new(r"^(?P<ts>\d{4}-\d{2}-\d{2} \d{2}:\d{2}:\d{2} [+-]\d{4})", "%Y-%m-%d %H:%M:%S %z").unwrap();
    let result = extractor.extract("2025-12-04 02:42:11 +0530 log message").unwrap().unwrap();
    assert_eq!(rfc3339(result), "2025-12-03T21:12:11+00:00");
}

#[test]
fn test_timezone_naive_assumes_utc() {
    let extractor =
        TimestampExtractor::new(r"^(?P<ts>\d{4}-\d{2}-\d{2} \d{2}:\d{2}:\d{2})", "%Y-%m-%d %H:%M:%S").unwrap();
    let result = extractor.extract("2025-12-04 02:42:11 log message").unwrap().unwrap();
    assert_eq!(rfc3339(result), "2025-12-04T02:42:11+00:00");
}

#[test]
fn negative_epoch_seconds_read() {
    let extractor = TimestampExtractor::new(r"^(?P<ts>-?\d+)", "epoch").unwrap();
    let result = extractor.extract("-5 before 1970").unwrap().unwrap();
    assert_eq!(result, -5_000_000_000);
}

#[test]
fn parse_error_names_value_and_format() {
    let extractor = TimestampExtractor::new(r"^(?P<ts>\S+)", "epoch_ms").unwrap();
    match extractor.extract("abc rest") {
        Err(TimestampError::ParseError { value, format, .. }) => {
            assert_eq!(value, "abc");
            assert_eq!(format, "epoch_ms");
        }
        _ => panic!("expected a parse error"),
    }
}

#[test]
fn epoch_values_in_range_read() {
    let seconds = TimestampExtractor::new(r"^(?P<ts>-?\d+)", "epoch").unwrap();
    assert_eq!(seconds.parse_value("0").ok(), Some(0));
    assert_eq!(seconds.parse_value("-86400").ok(), Some(-86_400_000_000_000));
    let millis = TimestampExtractor::new(r"^(?P<ts>-?\d+)", "epoch_ms").unwrap();
    assert_eq!(millis.parse_value("1500").ok(), Some(1_500_000_000));
    assert_eq!(millis.parse_value("-2000").ok(), Some(-2_000_000_000));
}

#[test]
fn epoch_seconds_accepted_exactly_within_chrono_years() {
    let seconds = TimestampExtractor::new(r"^(?P<ts>-?\d+)", "epoch").unwrap();
    assert!(seconds.parse_value("8210266876799").is_ok());
    assert!(seconds.parse_value("8210266876800").is_err());
    assert!(seconds.parse_value("-8334601228800").is_ok());
    assert!(seconds.parse_value("-8334601228801").is_err());
}

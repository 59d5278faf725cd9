use noil::cli::interactive::{Key, KeyOutcome, Phase, RegexFormatState};
use noil::cli::interactive::{delete_char, derive_source_id, insert_char, move_left, move_right};
use noil::cli::run::format_web_url;
use noil::config::types::BackpressureStrategy;
use noil::pipeline::backpressure::BackpressureHandler;
use noil::storage::duckdb::extract_pid_from_lock_error;

#[test]
fn test_extract_pid_from_lock_error() {
    let error_msg = "IO Error: Could not set lock on file \"/path/to/db.duckdb\": Conflicting lock is held in /path/to/binary (deleted) (PID 12345). See also https://duckdb.org/docs/stable/connect/concurrency";
    assert_eq!(extract_pid_from_lock_error(error_msg), Some(12345));

    let error_msg_no_pid = "Some other error";
    assert_eq!(extract_pid_from_lock_error(error_msg_no_pid), None);

    let error_msg_malformed = "Error (PID abc)";
    assert_eq!(extract_pid_from_lock_error(error_msg_malformed), None);
}

#[test]
fn lock_pid_too_large_is_refused() {
    assert_eq!(extract_pid_from_lock_error("(PID 4294967296)"), None);
    assert_eq!(extract_pid_from_lock_error("(PID 4294967295)"), Some(u32::MAX));
    assert_eq!(extract_pid_from_lock_error("(PID 12"), None);
}

#[test]
fn web_urls() {
    assert_eq!(format_web_url("0.0.0.0:8080"), "http://127.0.0.1:8080");
    assert_eq!(format_web_url("[::]:9000"), "http://[::1]:9000");
    assert_eq!(format_web_url(" https://example.org "), "https://example.org");
    assert_eq!(format_web_url("localhost"), "http://localhost");
    assert_eq!(format_web_url("10.1.2.3:80"), "http://10.1.2.3:80");
}

#[test]
fn source_ids_from_paths() {
    assert_eq!(derive_source_id("/var/log/nginx/access.log"), "access");
    assert_eq!(derive_source_id("/tmp/2024-app.log"), "source_2024_app");
    assert_eq!(derive_source_id("/"), "source");
    assert_eq!(derive_source_id("my-app.service.log"), "my_app_service");
}

#[test]
fn cursor_editing() {
    let mut text: Vec<char> = "ac".chars().collect();
    let mut cursor = 1;
    insert_char(&mut text, &mut cursor, 'b');
    assert_eq!(text.iter().collect::<String>(), "abc");
    assert_eq!(cursor, 2);
    delete_char(&mut text, &mut cursor);
    assert_eq!(text.iter().collect::<String>(), "ac");
    assert_eq!(cursor, 1);
    move_left(&mut cursor);
    move_left(&mut cursor);
    assert_eq!(cursor, 0);
    move_right(&text, &mut cursor);
    move_right(&text, &mut cursor);
    move_right(&text, &mut cursor);
    assert_eq!(cursor, 2);
}

#[test]
fn channel_size_is_the_buffer_limit() {
    let h = BackpressureHandler::new(BackpressureStrategy::Drop, 42);
    assert_eq!(h.channel_buffer_size(), 42);
    assert_eq!(h.strategy(), BackpressureStrategy::Drop);
}

#[test]
fn choosing_a_pattern_and_an_offered_format_by_keys() {
    let mut st = RegexFormatState::new(vec!["no stamp".to_string(), "2025-01-01T00:00:00Z hello".to_string()]);
    // Without a pattern, Enter does nothing.
    let re = st.try_compile();
    assert!(matches!(st.on_key(Key::Enter, &re), KeyOutcome::Continue));
    assert!(matches!(st.phase, Phase::RegexInput));
    for c in r"^(?P<ts>\d\S+)X".chars() {
        st.on_key(Key::Char(c), &None);
    }
    st.on_key(Key::Backspace, &None);
    assert_eq!(st.pattern, r"^(?P<ts>\d\S+)");
    st.on_key(Key::Home, &None);
    assert_eq!(st.pattern_cursor, 0);
    st.on_key(Key::End, &None);
    assert_eq!(st.pattern_cursor, 14);
    let re = st.try_compile();
    assert!(matches!(st.on_key(Key::Enter, &re), KeyOutcome::Continue));
    assert!(matches!(st.phase, Phase::FormatSelect { selected: 0 }));
    assert_eq!(st.captured_ts.as_deref(), Some("2025-01-01T00:00:00Z"));
    st.on_key(Key::Up, &re);
    assert!(matches!(st.phase, Phase::FormatSelect { selected: 3 }));
    st.on_key(Key::Char('j'), &re);
    assert!(matches!(st.phase, Phase::FormatSelect { selected: 0 }));
    st.on_key(Key::Down, &re);
    match st.on_key(Key::Enter, &re) {
        KeyOutcome::Chosen { pattern, format } => {
            assert_eq!(pattern, r"^(?P<ts>\d\S+)");
            assert_eq!(format, "epoch");
        }
        _ => panic!("expected a choice"),
    }
}

#[test]
fn choosing_a_custom_format_by_keys() {
    let mut st = RegexFormatState::new(vec![]);
    for c in r"(?P<ts>\d+)".chars() {
        st.on_key(Key::Char(c), &None);
    }
    let re = st.try_compile();
    st.on_key(Key::Enter, &re);
    st.on_key(Key::Char('k'), &re);
    st.on_key(Key::Enter, &re);
    assert!(matches!(st.phase, Phase::StrptimeInput));
    assert!(matches!(st.on_key(Key::Enter, &re), KeyOutcome::Continue));
    st.on_key(Key::Char('%'), &re);
    st.on_key(Key::Char('s'), &re);
    st.on_key(Key::Left, &re);
    st.on_key(Key::Char('Y'), &re);
    assert_eq!(st.strptime_fmt, "%Ys");
    match st.on_key(Key::Enter, &re) {
        KeyOutcome::Chosen { format, .. } => assert_eq!(format, "%Ys"),
        _ => panic!("expected a choice"),
    }
    st.on_key(Key::Esc, &re);
    assert!(matches!(st.phase, Phase::FormatSelect { selected: 3 }));
    st.on_key(Key::Esc, &re);
    assert!(matches!(st.phase, Phase::RegexInput));
    assert!(matches!(st.on_key(Key::Esc, &re), KeyOutcome::Cancelled));
    assert!(matches!(st.on_key(Key::Interrupt, &re), KeyOutcome::Cancelled));
}

use session_recorder::models::{CommandEvent, CommandsFile, Duration};
use session_recorder::recorder::{dated_session_name, truncate_output, RecorderError, SessionRecorder, PREVIEW_LIMIT};
use session_recorder::storage::{SessionStorage, StorageError};

fn event(sequence: u64, start_time: &str, end_time: &str) -> CommandEvent {
    CommandEvent {
        sequence,
        command: "echo hello".to_string(),
        cwd: "/tmp".to_string(),
        start_time: start_time.to_string(),
        end_time: end_time.to_string(),
        duration: Duration::from_secs(1),
        exit_code: 0,
        stdout_truncated: false,
        stderr_truncated: false,
        stdout_preview: "hello".to_string(),
        stderr_preview: String::new(),
        tags: Vec::new(),
    }
}

#[test]
fn short_output_is_kept() {
    assert_eq!(truncate_output("hello", 4096), "hello");
    assert_eq!(truncate_output("", 0), "");
    let exact = "x".repeat(4096);
    assert_eq!(truncate_output(&exact, 4096), exact);
}

#[test]
fn long_output_is_cut() {
    let long = "y".repeat(5000);
    let cut = truncate_output(&long, 4096);
    assert_eq!(cut, format!("{}\n... [truncated, 5000 total bytes]", "y".repeat(4096)));
    assert_eq!(truncate_output("abcdef", 3), "abc\n... [truncated, 6 total bytes]");
}

#[test]
fn multibyte_output_is_cut_at_whole_characters() {
    // 3 characters of 2 bytes each: only whole characters that fit in the byte limit are kept.
    assert_eq!(truncate_output("\u{e9}\u{e9}\u{e9}", 4), "\u{e9}\u{e9}\n... [truncated, 6 total bytes]");
    assert_eq!(truncate_output("\u{e9}\u{e9}\u{e9}", 3), "\u{e9}\n... [truncated, 6 total bytes]");
    assert_eq!(truncate_output("\u{e9}\u{e9}\u{e9}", 1), "\n... [truncated, 6 total bytes]");
    let wide = "\u{1F600}".repeat(2000);
    let cut = truncate_output(&wide, 4096);
    assert_eq!(cut, format!("{}\n... [truncated, 8000 total bytes]", "\u{1F600}".repeat(1024)));
}

#[test]
fn previews_hide_everything_past_the_limit() {
    let a = format!("{}{}", "p".repeat(10), "secret-a");
    let b = format!("{}{}", "p".repeat(10), "secret-b");
    assert_eq!(truncate_output(&a, 10), truncate_output(&b, 10));
}

#[test]
fn recorded_events_are_numbered_and_truncated() {
    let existing = vec![event(1, "t", "t"), event(2, "t", "t")];
    let big = "z".repeat(PREVIEW_LIMIT + 1);
    let e = SessionRecorder::new_command_event(&existing, "make", "/src", 2, "ok", &big, Duration::new(3, 5));
    assert_eq!(e.sequence, 3);
    assert_eq!(e.command, "make");
    assert_eq!(e.cwd, "/src");
    assert_eq!(e.exit_code, 2);
    assert_eq!(e.start_time, e.end_time);
    assert!(!e.start_time.is_empty());
    assert!(!e.stdout_truncated);
    assert!(e.stderr_truncated);
    assert_eq!(e.stdout_preview, "ok");
    assert_eq!(e.stderr_preview, format!("{}\n... [truncated, 4097 total bytes]", "z".repeat(4096)));
    assert_eq!(e.duration.as_secs(), 3);
    assert_eq!(e.duration.subsec_nanos(), 5);
    assert!(e.tags.is_empty());
}

#[test]
fn events_recorded_at_a_given_time() {
    let e = SessionRecorder::command_event_at(&Vec::new(), "ls", "/", 0, "a\nb", "", Duration::zero(), "2026-01-01T00:00:00+00:00");
    assert_eq!(e.sequence, 1);
    assert_eq!(e.start_time, "2026-01-01T00:00:00+00:00");
    assert_eq!(e.end_time, "2026-01-01T00:00:00+00:00");
    assert_eq!(e.stdout_preview, "a\nb");
}

#[test]
fn second_stop_finds_no_active_session() {
    let active = SessionStorage::active_from_content(None);
    assert!(matches!(SessionRecorder::stop_target(active), Err(RecorderError::NoActiveSession)));
}

#[test]
fn consecutive_recordings_stay_numbered() {
    let mut file: Option<CommandsFile> = None;
    for _ in 0..4 {
        let commands = file.as_ref().map(|f| f.commands.clone()).unwrap_or_default();
        let e = SessionRecorder::new_command_event(&commands, "ls", "/", 0, "", "", Duration::zero());
        file = Some(CommandsFile::with_appended(file, "s", e));
    }
    let file = file.unwrap();
    let numbers: Vec<u64> = file.commands.iter().map(|c| c.sequence).collect();
    assert_eq!(numbers, vec![1, 2, 3, 4]);
}

#[test]
fn dated_names_follow_the_clock() {
    assert_eq!(dated_session_name(0, 0), "session-19700101-000000");
    assert_eq!(dated_session_name(1_767_225_600, 5), "session-20260101-000000");
    assert_eq!(dated_session_name(1_767_229_384, 0), "session-20260101-010304");
    assert_eq!(dated_session_name(253_402_300_800, 0), "session-+100000101-000000");
}

#[test]
fn session_identity() {
    let (id, name) = SessionRecorder::new_session_identity(Some("my-session".to_string()));
    assert_eq!(name, "my-session");
    assert_eq!(id.len(), 36);
    let chars: Vec<char> = id.chars().collect();
    for (i, c) in chars.iter().enumerate() {
        if [8, 13, 18, 23].contains(&i) {
            assert_eq!(*c, '-');
        } else {
            assert!(c.is_ascii_hexdigit() && !c.is_ascii_uppercase());
        }
    }
    assert_eq!(chars[14], '4');
    assert!("89ab".contains(chars[19]));
    let (other, dated) = SessionRecorder::new_session_identity(None);
    assert_ne!(other, id);
    assert!(dated.starts_with("session-"));
    assert_eq!(dated.len(), "session-20260101-000000".len());
}

fn stop(commands: Result<Vec<CommandEvent>, StorageError>) -> session_recorder::models::Session {
    SessionRecorder::assemble_session(
        "sid".to_string(),
        "Test".to_string(),
        commands,
        "2026-01-01T00:00:09+00:00".to_string(),
        Some("testhost".to_string()),
        "testuser".to_string(),
    )
}

#[test]
fn stopping_a_session_keeps_its_commands() {
    let commands = vec![
        event(1, "2026-01-01T00:00:00Z", "2026-01-01T00:00:01Z"),
        event(2, "2026-01-01T00:00:02Z", "2026-01-01T00:00:05.5Z"),
    ];
    let s = stop(Ok(commands));
    assert_eq!(s.id, "sid");
    assert_eq!(s.name, "Test");
    assert_eq!(s.commands.len(), 2);
    assert_eq!(s.start_time, "2026-01-01T00:00:00Z");
    assert_eq!(s.end_time, "2026-01-01T00:00:09+00:00");
    assert_eq!(s.hostname, "testhost");
    assert_eq!(s.username, "testuser");
    assert_eq!(s.duration.as_secs(), 5);
    assert_eq!(s.duration.subsec_nanos(), 500_000_000);
    assert!(s.tags.is_empty());
    assert_eq!(SessionRecorder::stop_report(&s, "5.5"), "Session 'Test' (sid) \u{2014} 2 commands, 5.5s total");
}

#[test]
fn stopping_without_commands() {
    let s = stop(Err(SessionStorage::session_not_found("sid")));
    assert!(s.commands.is_empty());
    assert_eq!(s.start_time, "2026-01-01T00:00:09+00:00");
    assert_eq!(s.end_time, "2026-01-01T00:00:09+00:00");
    assert_eq!(s.duration, Duration::zero());
    assert_eq!(SessionRecorder::stop_report(&s, "0.0"), "Session 'Test' (sid) \u{2014} 0 commands, 0.0s total");
}

#[test]
fn unknown_host_is_named_unknown() {
    let s = SessionRecorder::assemble_session(
        "a".to_string(),
        "n".to_string(),
        Ok(Vec::new()),
        "t".to_string(),
        None,
        "u".to_string(),
    );
    assert_eq!(s.hostname, "unknown");
    assert_eq!(s.username, "u");
}

#[test]
fn stamped_session_reads_clock_host_and_user() {
    let s = SessionRecorder::stamp_session("sid".to_string(), "live".to_string(), Ok(Vec::new()));
    assert_eq!(s.id, "sid");
    assert_eq!(s.start_time, s.end_time);
    assert!(s.end_time.starts_with("20"));
    assert!(s.end_time.ends_with("+00:00"));
    assert_eq!(s.end_time.as_bytes()[10], b'T');
    assert!(!s.hostname.is_empty());
    assert!(!s.username.is_empty());
}

#[test]
fn span_is_zero_for_bad_or_reversed_times() {
    let s = stop(Ok(vec![event(1, "2026-01-01T00:00:05Z", "2026-01-01T00:00:00Z")]));
    assert_eq!(s.duration, Duration::zero());
    let s = stop(Ok(vec![event(1, "yesterday", "today")]));
    assert_eq!(s.duration, Duration::zero());
    assert_eq!(s.start_time, "yesterday");
}

#[test]
fn stop_needs_an_active_session() {
    let r = SessionRecorder::stop_target(Err(StorageError::NotFound("No active session".to_string())));
    assert!(matches!(r, Err(RecorderError::NoActiveSession)));
    let r = SessionRecorder::stop_target(Ok(("id".to_string(), "n".to_string()))).unwrap();
    assert_eq!(r, ("id".to_string(), "n".to_string()));
}

#[test]
fn recorder_errors() {
    assert_eq!(RecorderError::NoActiveSession.message(), "No active recording session");
    assert_eq!(RecorderError::AlreadyActive.message(), "A session is already being recorded");
    assert_eq!(RecorderError::SerializationError("x".to_string()).message(), "Serialization error: x");
    let io = std::io::Error::new(std::io::ErrorKind::Other, "denied");
    assert_eq!(RecorderError::IoError(io).message(), "IO error: denied");
    match RecorderError::from(StorageError::NotFound("Session q not found".to_string())) {
        RecorderError::SerializationError(m) => assert_eq!(m, "Session q not found"),
        other => panic!("unexpected {:?}", other),
    }
    match RecorderError::from(StorageError::SerializationError("bad json".to_string())) {
        RecorderError::SerializationError(m) => assert_eq!(m, "bad json"),
        other => panic!("unexpected {:?}", other),
    }
    let io = std::io::Error::new(std::io::ErrorKind::Other, "denied");
    assert!(matches!(RecorderError::from(StorageError::IoError(io)), RecorderError::IoError(_)));
    match RecorderError::start_failure(StorageError::SerializationError("oops".to_string())) {
        RecorderError::SerializationError(m) => assert_eq!(m, "Serialization error: oops"),
        other => panic!("unexpected {:?}", other),
    }
}

#[test]
fn recorder_uses_its_storage() {
    let storage = SessionStorage::from_data_dir(Some("/data".to_string()));
    let recorder = SessionRecorder::new(storage);
    assert_eq!(recorder.storage_ref().base_dir(), "/data/session-recorder");
}

#[test]
fn durations_carry_nanoseconds() {
    let d = Duration::new(1, 2_500_000_000);
    assert_eq!(d.as_secs(), 3);
    assert_eq!(d.subsec_nanos(), 500_000_000);
    assert_eq!(Duration::from_secs(9).as_secs(), 9);
    assert_eq!(Duration::zero().subsec_nanos(), 0);
}

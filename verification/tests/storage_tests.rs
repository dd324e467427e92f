use session_recorder::models::{CommandEvent, CommandsFile, Duration, Session};
use session_recorder::storage::{join_path, newest_first, SessionFormat, SessionStorage, StorageError};

fn event(sequence: u64, command: &str, exit_code: i32, stdout_preview: &str) -> CommandEvent {
    CommandEvent {
        sequence,
        command: command.to_string(),
        cwd: "/tmp".to_string(),
        start_time: "2026-01-01T00:00:00Z".to_string(),
        end_time: "2026-01-01T00:00:01Z".to_string(),
        duration: Duration::from_secs(1),
        exit_code,
        stdout_truncated: false,
        stderr_truncated: false,
        stdout_preview: stdout_preview.to_string(),
        stderr_preview: String::new(),
        tags: Vec::new(),
    }
}

fn session(id: &str, start_time: &str, commands: Vec<CommandEvent>) -> Session {
    Session {
        id: id.to_string(),
        name: format!("name-{id}"),
        start_time: start_time.to_string(),
        end_time: "2026-01-01T00:00:05Z".to_string(),
        duration: Duration::from_secs(5),
        hostname: "testhost".to_string(),
        username: "testuser".to_string(),
        commands,
        tags: Vec::new(),
    }
}

#[test]
fn join_path_follows_unix_rules() {
    assert_eq!(join_path("/a", "b"), "/a/b");
    assert_eq!(join_path("/a/", "b"), "/a/b");
    assert_eq!(join_path("", "b"), "b");
    assert_eq!(join_path("/a", "/b"), "/b");
    assert_eq!(join_path("/a", ""), "/a/");
    for (base, comp) in [("/a", "b"), ("/a/", "b"), ("", "b"), ("/a", "/b"), ("x", "y.json")] {
        let expected = std::path::Path::new(base).join(comp);
        assert_eq!(join_path(base, comp), expected.to_str().unwrap());
    }
}

#[test]
fn storage_layout_under_data_dir() {
    let s = SessionStorage::from_data_dir(Some("/home/alice/.local/share".to_string()));
    assert_eq!(s.base_dir(), "/home/alice/.local/share/session-recorder");
    assert_eq!(s.sessions_dir(), "/home/alice/.local/share/session-recorder/sessions");
    assert_eq!(s.active_dir(), "/home/alice/.local/share/session-recorder/active");
    assert_eq!(s.active_path(), "/home/alice/.local/share/session-recorder/active/active.json");
    assert_eq!(
        s.commands_path("abc"),
        "/home/alice/.local/share/session-recorder/sessions/abc.json"
    );
}

#[test]
fn storage_falls_back_to_tmp() {
    let s = SessionStorage::from_data_dir(None);
    assert_eq!(s.base_dir(), "/tmp/session-recorder");
    assert_eq!(s.commands_path("x"), "/tmp/session-recorder/sessions/x.json");
    let located = SessionStorage::locate();
    assert!(located.base_dir().ends_with("/session-recorder"));
}

#[test]
fn distinct_sessions_have_distinct_files() {
    let s = SessionStorage::from_data_dir(Some("/d".to_string()));
    let ids = ["a", "b", "a.json", "", "x/y"];
    for a in ids {
        for b in ids {
            assert_eq!(s.commands_path(a) == s.commands_path(b), a == b);
        }
        assert_ne!(s.commands_path(a), s.active_path());
    }
}

#[test]
fn active_file_round_trip() {
    let text = SessionStorage::active_file_content("id-1", "work").unwrap();
    assert_eq!(text, "[\n  \"id-1\",\n  \"work\"\n]");
    let read = SessionStorage::active_from_content(Some(&text)).unwrap();
    assert_eq!(read, ("id-1".to_string(), "work".to_string()));
}

#[test]
fn active_file_missing_empty_or_broken() {
    match SessionStorage::active_from_content(None) {
        Err(StorageError::NotFound(m)) => assert_eq!(m, "No active session"),
        other => panic!("unexpected {:?}", other),
    }
    match SessionStorage::active_from_content(Some("null")) {
        Err(StorageError::NotFound(m)) => assert_eq!(m, "No active session"),
        other => panic!("unexpected {:?}", other),
    }
    match SessionStorage::active_from_content(Some("{oops")) {
        Err(StorageError::SerializationError(m)) => {
            let reason = serde_json::from_str::<Option<(String, String)>>("{oops").unwrap_err().to_string();
            assert_eq!(m, format!("Invalid active session: {reason}"));
        }
        other => panic!("unexpected {:?}", other),
    }
}

#[test]
fn active_session_missing_or_invalid() {
    match SessionStorage::resolve_active(None) {
        Err(StorageError::NotFound(m)) => assert_eq!(m, "No active session"),
        other => panic!("unexpected {:?}", other),
    }
    match SessionStorage::resolve_active(Some(Ok(None))) {
        Err(StorageError::NotFound(m)) => assert_eq!(m, "No active session"),
        other => panic!("unexpected {:?}", other),
    }
    match SessionStorage::resolve_active(Some(Err("expected value".to_string()))) {
        Err(StorageError::SerializationError(m)) => assert_eq!(m, "Invalid active session: expected value"),
        other => panic!("unexpected {:?}", other),
    }
}

#[test]
fn storage_error_messages() {
    assert_eq!(SessionStorage::session_not_found("abc").message(), "Not found: Session abc not found");
    assert_eq!(
        StorageError::SerializationError("bad".to_string()).message(),
        "Serialization error: bad"
    );
    let io = std::io::Error::new(std::io::ErrorKind::Other, "disk full");
    assert_eq!(StorageError::IoError(io).message(), "IO error: disk full");
    let converted: StorageError = std::io::Error::new(std::io::ErrorKind::NotFound, "gone").into();
    assert!(matches!(converted, StorageError::IoError(_)));
}

#[test]
fn format_names_are_case_insensitive() {
    assert_eq!(SessionFormat::from_name("json"), SessionFormat::Json);
    assert_eq!(SessionFormat::from_name("JSON"), SessionFormat::Json);
    assert_eq!(SessionFormat::from_name("Json"), SessionFormat::Json);
    assert_eq!(SessionFormat::from_name("yaml"), SessionFormat::Yaml);
    assert_eq!(SessionFormat::from_name("YaML"), SessionFormat::Yaml);
    assert_eq!(SessionFormat::from_name("text"), SessionFormat::Text);
    assert_eq!(SessionFormat::from_name("yml"), SessionFormat::Text);
    assert_eq!(SessionFormat::from_name(""), SessionFormat::Text);
}

#[test]
fn text_rendering_of_a_session() {
    let s = session(
        "test-session-1",
        "2026-01-01T00:00:00Z",
        vec![event(1, "echo hello", 0, "hello"), event(2, "false", 1, "line1\r\nline2")],
    );
    let storage = SessionStorage::from_data_dir(None);
    let texts = vec!["1.00".to_string(), "0.25".to_string()];
    let out = storage.format_text_session(&s, "5.0", &texts);
    let expected = "Session: name-test-session-1\n\
ID: test-session-1\n\
Started: 2026-01-01T00:00:00Z\n\
Ended: 2026-01-01T00:00:05Z\n\
Duration: 5.0s\n\
Host: testuser@testhost\n\
Commands: 2\n\
\n--- Commands ---\n\
\n[1] #echo hello exit=  0 1.00s\n  hello\n\
\n[2] #false exit=  1 0.25s\n  line1\n";
    assert_eq!(out, expected);
}

#[test]
fn text_rendering_without_commands() {
    let s = session("e", "t0", Vec::new());
    let out = SessionStorage::from_data_dir(None).format_text_session(&s, "0.0", &Vec::new());
    assert!(out.ends_with("Commands: 0\n\n--- Commands ---\n"));
}

#[test]
fn listing_is_newest_first_and_stable() {
    let sessions = vec![
        session("a", "2026-01-01T00:00:00Z", Vec::new()),
        session("b", "2026-03-01T00:00:00Z", Vec::new()),
        session("c", "2026-01-01T00:00:00Z", Vec::new()),
        session("d", "2026-02-01T00:00:00Z", Vec::new()),
        session("e", "2026-03-01T00:00:00Z", Vec::new()),
    ];
    assert_eq!(newest_first(&sessions), vec![1, 4, 3, 0, 2]);
    let mut expected: Vec<usize> = (0..sessions.len()).collect();
    expected.sort_by(|&a, &b| sessions[b].start_time.cmp(&sessions[a].start_time));
    assert_eq!(newest_first(&sessions), expected);
    assert_eq!(newest_first(&Vec::new()), Vec::<usize>::new());
}

#[test]
fn appending_commands() {
    let first = CommandsFile::with_appended(None, "s1", event(1, "ls", 0, ""));
    assert_eq!(first.session_id, "s1");
    assert_eq!(first.commands.len(), 1);
    let second = CommandsFile::with_appended(Some(first), "ignored", event(2, "pwd", 0, "/"));
    assert_eq!(second.session_id, "s1");
    assert_eq!(second.commands.len(), 2);
    assert_eq!(second.commands[0].command, "ls");
    assert_eq!(second.commands[1].command, "pwd");
}

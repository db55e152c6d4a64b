//! Commands of the dock: built-ins, processes and the lines they print.
use manto::cmd::{
    read_lossy_lines, tick_all, CommandEntry, CommandKind, CommandStatus, LineSplitter, Poll,
    RunnerUpdate,
};

#[test]
fn builtin_pwd_returns_cwd() {
    let cwd_str = "/work/place".to_string();
    let output = CommandEntry::run_builtin("pwd", &cwd_str);
    assert_eq!(output, vec![cwd_str]);
}

#[test]
fn builtin_clear_returns_empty() {
    let output = CommandEntry::run_builtin("clear", "/tmp");
    assert!(output.is_empty());
}

#[test]
fn builtin_help_lists_commands() {
    let output = CommandEntry::run_builtin("help", "/tmp");
    assert!(output.len() > 1);
    assert!(output[0].contains("Built-in"));
}

#[test]
fn builtin_exit_returns_exit_marker() {
    let output = CommandEntry::run_builtin("exit", "/tmp");
    assert_eq!(output, vec!["__EXIT__"]);
}

#[test]
fn cmd_entry_is_exit_detects_exit_command() {
    let entry = CommandEntry::completed("exit", "/tmp", Vec::new());
    assert!(entry.is_exit());

    let entry = CommandEntry::completed("pwd", "/tmp", Vec::new());
    assert!(!entry.is_exit());
}

#[test]
fn cmd_entry_kind_is_builtin() {
    let entry = CommandEntry::completed("pwd", "/tmp", Vec::new());
    assert!(matches!(entry.kind, CommandKind::Builtin));

    let entry = CommandEntry::completed("ls", "/tmp", Vec::new());
    assert!(matches!(entry.kind, CommandKind::External));
}

#[test]
fn mod_entry_is_exit_detects_exit_command() {
    let entry = CommandEntry::completed("exit", "/tmp", Vec::new());
    assert!(entry.is_exit());

    let entry = CommandEntry::completed("pwd", "/tmp", Vec::new());
    assert!(!entry.is_exit());
}

#[test]
fn mod_entry_kind_is_builtin() {
    let entry = CommandEntry::completed("pwd", "/tmp", Vec::new());
    assert!(matches!(entry.kind, CommandKind::Builtin));

    let entry = CommandEntry::completed("ls", "/tmp", Vec::new());
    assert!(matches!(entry.kind, CommandKind::External));
}

#[test]
fn lossy_reader_captures_non_utf8_lines() {
    let bytes: Vec<u8> = vec![b'a', b'b', 0xFF, 0xFE, b'\n', b'c', b'd'];
    let lines: Vec<String> = read_lossy_lines(&[bytes]);
    assert_eq!(lines.len(), 2, "expected two lines, got {lines:?}");
    assert!(
        lines[0].contains("ab"),
        "first line should contain ab: {lines:?}"
    );
    assert_eq!(lines[1], "cd");
}

#[test]
fn a_stream_in_pieces_has_the_same_lines() {
    let whole = read_lossy_lines(&[b"one\r\ntwo\n\nthree ".to_vec()]);
    let pieces = read_lossy_lines(&[
        b"o".to_vec(),
        b"ne\r".to_vec(),
        b"\ntwo\n".to_vec(),
        b"\nthree ".to_vec(),
    ]);
    assert_eq!(whole, vec!["one", "two", "three"]);
    assert_eq!(pieces, whole);
}

#[test]
fn a_splitter_keeps_what_is_not_a_line_yet() {
    let mut s = LineSplitter::new();
    assert_eq!(s.feed("ab\ncd"), vec!["ab"]);
    assert_eq!(s.rest_text(), "cd");
    assert_eq!(s.feed_bytes(b"e\n"), vec!["cde"]);
    assert_eq!(s.finish(), None);
}

#[test]
fn a_process_ends_when_its_streams_are_closed() {
    let mut entry = CommandEntry::spawn("ls", ".", 4, None);
    assert_eq!(entry.status, CommandStatus::Running);
    assert!(entry.is_running_external());
    assert_eq!(entry.kill(), Some(4));
    assert!(entry.tick(&["a".to_string()], None, false));
    assert_eq!(entry.status, CommandStatus::Running);
    assert!(entry.tick(&[], Some(0), true));
    assert_eq!(entry.status, CommandStatus::Complete);
    assert_eq!(entry.output_lines, vec!["a"]);
    assert!(!entry.tick(&[], None, false));
}

#[test]
fn a_process_that_could_not_start_says_why() {
    let entry = CommandEntry::spawn("nope", ".", 4, Some("failed to spawn nope".to_string()));
    assert_eq!(entry.status, CommandStatus::Complete);
    assert_eq!(entry.output_lines, vec!["failed to spawn nope"]);
    assert_eq!(entry.kill(), None);
}

#[test]
fn a_clone_has_no_process() {
    let entry = CommandEntry::spawn("ls", ".", 4, None);
    assert_eq!(entry.clone().kill(), None);
    assert_eq!(entry.clone().command, "ls");
}

#[test]
fn polls_count_the_closed_streams() {
    let mut closed: usize = 0;
    let p = Poll::collect(
        &[RunnerUpdate::Line("x".to_string()), RunnerUpdate::Closed],
        false,
        &mut closed,
        Some(0),
    );
    assert_eq!(p.lines, vec!["x"]);
    assert!(!p.closed);
    assert_eq!(closed, 1);
    let p = Poll::collect(&[RunnerUpdate::Closed], false, &mut closed, Some(0));
    assert!(p.closed);
    let mut closed: usize = 0;
    let p = Poll::collect(&[], true, &mut closed, None);
    assert!(!p.closed);
    assert_eq!(closed, 2);
}

#[test]
fn all_commands_tick() {
    let mut commands = vec![
        CommandEntry::completed("pwd", ".", Vec::new()),
        CommandEntry::spawn("ls", ".", 1, None),
    ];
    let quiet = Poll { lines: Vec::new(), exit_code: None, closed: false };
    let loud = Poll { lines: vec!["x".to_string()], exit_code: None, closed: false };
    assert!(tick_all(&mut commands, &[quiet, loud]));
    assert_eq!(commands[1].output_lines, vec!["x"]);
    let a = Poll { lines: Vec::new(), exit_code: None, closed: false };
    let b = Poll { lines: Vec::new(), exit_code: None, closed: false };
    assert!(!tick_all(&mut commands, &[a, b]));
}

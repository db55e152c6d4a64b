//! Terminal windows: typed lines, keys as bytes, and what a session prints.
use manto::app::terminal::{
    console_key_to_bytes, interactive_command, is_interactive_app, is_repl_exit,
    is_terminal_navigation, key_to_bytes, mouse_to_bytes, split_interactive_flag, ShellSession,
    TerminalState,
};
use manto::app::Application;
use manto::cmd::{CommandEntry, Poll};
use manto::os::{Key, MouseAction, MouseButton, MouseEvent};
use manto::terminal_backend::{CommandPoll, TerminalEvent, TerminalUpdate};
use manto::terminal_emulator::Terminal;
use manto::ui::window::Window;

fn pipe() -> ShellSession {
    ShellSession { id: 7, real_pty: false, console: false }
}

fn pty() -> ShellSession {
    ShellSession { id: 8, real_pty: true, console: false }
}

#[test]
fn interactive_command_rewrites_bare_python() {
    assert_eq!(interactive_command("python"), "python -i");
    assert_eq!(interactive_command("python3"), "python3 -i");
    assert_eq!(interactive_command("python2"), "python2 -i");
    assert_eq!(interactive_command("python script.py"), "python script.py");
    assert_eq!(interactive_command("dir"), "dir");
}

#[test]
fn repl_exit_detection_clears_mode() {
    for e in ["exit", "exit()", "quit", "quit()", "\\q", ":q"] {
        assert!(is_repl_exit(e), "{e} should exit the REPL");
    }
    for e in ["dir", "print('x')", "q", "1+1"] {
        assert!(!is_repl_exit(e), "{e} should not exit the REPL");
    }
}

#[test]
fn interactive_flag_splitting() {
    assert_eq!(split_interactive_flag("#i vim"), ("vim".to_string(), true));
    assert_eq!(
        split_interactive_flag("#i   python3"),
        ("python3".to_string(), true)
    );
    assert_eq!(split_interactive_flag("#I top"), ("top".to_string(), true));
    assert_eq!(split_interactive_flag("#i"), ("".to_string(), true));
    assert_eq!(split_interactive_flag("#i   "), ("".to_string(), true));
    assert_eq!(
        split_interactive_flag("vim #i"),
        ("vim #i".to_string(), false)
    );
    assert_eq!(
        split_interactive_flag("#iffy"),
        ("#iffy".to_string(), false)
    );
    assert_eq!(
        split_interactive_flag("# comment"),
        ("# comment".to_string(), false)
    );
    assert_eq!(split_interactive_flag("dir"), ("dir".to_string(), false));
    assert!(is_interactive_app("vim"));
    assert!(is_interactive_app("python"));
    assert!(is_interactive_app("nano"));
    assert!(!is_interactive_app("dir"));
}

#[test]
fn key_to_bytes_maps_terminal_keys() {
    assert_eq!(key_to_bytes(Key::Enter).unwrap(), b"\r");
    assert_eq!(key_to_bytes(Key::Up).unwrap(), b"\x1b[A");
    assert_eq!(key_to_bytes(Key::ShiftLeft).unwrap(), b"\x1b[1;2D");
    assert_eq!(key_to_bytes(Key::ShiftUp).unwrap(), b"\x1b[1;2A");
    assert_eq!(key_to_bytes(Key::PageUp).unwrap(), b"\x1b[5~");
    assert_eq!(key_to_bytes(Key::Delete).unwrap(), b"\x1b[3~");
    assert_eq!(key_to_bytes(Key::CtrlC).unwrap(), b"\x03");
    assert_eq!(key_to_bytes(Key::CtrlZ).unwrap(), b"\x1a");
    assert_eq!(key_to_bytes(Key::Char('a')).unwrap(), b"a");
    let bs = key_to_bytes(Key::Backspace).unwrap();
    assert_eq!(bs, vec![0x7f], "backspace byte per platform");
    let bs = console_key_to_bytes(Key::Backspace).unwrap();
    assert_eq!(bs, vec![0x08], "backspace byte per platform");
    assert!(key_to_bytes(Key::Ctrl1).is_none());
    assert!(key_to_bytes(Key::AltR).is_none());
}

#[test]
fn terminal_navigation_keys_are_detected() {
    for key in [
        Key::Up,
        Key::Down,
        Key::Left,
        Key::Right,
        Key::ShiftUp,
        Key::AltLeft,
        Key::Home,
        Key::End,
        Key::PageUp,
        Key::PageDown,
        Key::Delete,
        Key::CtrlDelete,
    ] {
        assert!(is_terminal_navigation(key), "{key:?} is navigation");
    }
    for key in [
        Key::Char('a'),
        Key::Enter,
        Key::Backspace,
        Key::Tab,
        Key::CtrlC,
        Key::Char(' '),
    ] {
        assert!(!is_terminal_navigation(key), "{key:?} is not navigation");
    }
}

#[test]
fn mouse_to_bytes_builds_sgr_reports() {
    let press = MouseEvent {
        x: 12,
        y: 7,
        kind: MouseAction::Press,
        button: MouseButton::Left,
        shift: false,
        ctrl: false,
        alt: false,
    };
    assert_eq!(mouse_to_bytes(press), Some(b"\x1b[<0;12;7M".to_vec()));

    let drag = MouseEvent {
        x: 3,
        y: 4,
        kind: MouseAction::Drag,
        button: MouseButton::Left,
        shift: true,
        ctrl: true,
        alt: false,
    };
    assert_eq!(mouse_to_bytes(drag), Some(b"\x1b[<84;3;4M".to_vec()));

    let release = MouseEvent {
        x: 1,
        y: 1,
        kind: MouseAction::Release,
        button: MouseButton::Left,
        shift: false,
        ctrl: false,
        alt: false,
    };
    assert_eq!(mouse_to_bytes(release), Some(b"\x1b[<0;1;1m".to_vec()));

    let wheel = MouseEvent {
        x: 5,
        y: 5,
        kind: MouseAction::Press,
        button: MouseButton::WheelUp,
        shift: false,
        ctrl: false,
        alt: false,
    };
    assert_eq!(mouse_to_bytes(wheel), Some(b"\x1b[<64;5;5M".to_vec()));
}

#[test]
fn repl_prompt_is_suppressed_and_used_as_prefix() {
    let mut t = TerminalState::new(".".to_string(), Vec::new());

    t.ingest_output_line(">>>".to_string());
    assert_eq!(t.repl_prompt.as_deref(), Some(">>>"));
    assert!(
        t.shell_lines.is_empty(),
        "prompt leaked: {:?}",
        t.shell_lines
    );

    t.ingest_output_line("42".to_string());
    assert!(t.shell_lines.iter().any(|l| l == "42"));
    assert_eq!(t.repl_prompt.as_deref(), Some(">>>"));

    t.clear_repl();
    assert_eq!(t.repl_prompt, None);
    assert!(t.repl_prompt.is_none());
}

#[test]
fn terminal_window_with_history_preserves_it() {
    let cwd = ".".to_string();
    let commands = vec![
        CommandEntry::completed(
            "cd xphmg",
            &cwd,
            vec!["erro: diretório não existe".to_string()],
        ),
        CommandEntry::completed(
            "flutter --version",
            &cwd,
            vec!["Flutter 3.32.8 stable".to_string()],
        ),
    ];
    let app = Application::terminal_window(
        "Term",
        Window::new(4, 4, 60, 25, 0),
        cwd,
        commands,
        Some(pty()),
    );
    let t = app.terminal.as_ref().unwrap();
    assert!(t.has_session(), "should have a session");
    assert!(
        t.shell_lines.iter().any(|l| l.contains("cd xphmg")),
        "history lost: {:#?}",
        t.shell_lines
    );
    assert!(
        t.shell_lines.iter().any(|l| l.contains("Flutter")),
        "history output lost: {:#?}",
        t.shell_lines
    );
}

#[test]
fn pipe_line_buffer_edits_correctly() {
    let mut ts = TerminalState::new(".".to_string(), Vec::new());
    ts.pipe_feed(b"X=3");
    ts.pipe_backspace();
    ts.pipe_feed(b"4");
    assert_eq!(String::from_utf8_lossy(&ts.pipe_line), "X=4");
    ts.pipe_backspace();
    ts.pipe_backspace();
    assert_eq!(String::from_utf8_lossy(&ts.pipe_line), "X");
    ts.pipe_flush();
    assert!(ts.pipe_line.is_empty());
    ts.pipe_feed("çã".as_bytes());
    assert_eq!(ts.pipe_line.len(), 4);
    ts.pipe_backspace();
    assert_eq!(String::from_utf8_lossy(&ts.pipe_line), "ç");
}

#[test]
fn pipe_recall_navigates_local_history() {
    let mut ts = TerminalState::new(".".to_string(), Vec::new());
    ts.pipe_feed(b"echo um");
    ts.pipe_flush();
    ts.pipe_feed(b"echo dois");
    ts.pipe_flush();
    ts.pipe_feed(b"newnline");
    assert_eq!(String::from_utf8_lossy(&ts.pipe_line), "newnline");

    assert!(ts.pipe_recall(true));
    assert_eq!(String::from_utf8_lossy(&ts.pipe_line), "echo dois");
    assert!(ts.pipe_recall(true));
    assert_eq!(String::from_utf8_lossy(&ts.pipe_line), "echo um");
    assert!(!ts.pipe_recall(true), "already at the oldest entry");

    assert!(ts.pipe_recall(false));
    assert_eq!(String::from_utf8_lossy(&ts.pipe_line), "echo dois");
    assert!(ts.pipe_recall(false));
    assert_eq!(String::from_utf8_lossy(&ts.pipe_line), "newnline");

    let mut empty = TerminalState::new(".".to_string(), Vec::new());
    assert!(!empty.pipe_recall(true));
}

#[test]
fn interactive_backspace_mirror_erases_the_cell() {
    let mut ts = TerminalState::new(".".to_string(), Vec::new());
    ts.emulator = Some(Terminal::new(20, 3));

    ts.mirror_input(b"a", false);
    ts.mirror_input(b"b", false);
    ts.mirror_input(b"c", false);
    let line = ts.emulator.as_ref().unwrap().line_as_text(0);
    assert_eq!(line.trim_end(), "abc");

    ts.mirror_input(&[0x08], true);
    let line = ts.emulator.as_ref().unwrap().line_as_text(0);
    assert_eq!(line.trim_end(), "ab", "backspace must blank the cell");

    ts.mirror_input(&[0x08], true);
    let line = ts.emulator.as_ref().unwrap().line_as_text(0);
    assert_eq!(line.trim_end(), "a");
}

#[test]
fn interactive_resize_is_propagated() {
    let mut t = TerminalState::new(".".to_string(), Vec::new());
    let mut em = Terminal::new(80, 24);
    em.process(b"line0\r\nline1\r\n");
    t.emulator = Some(em);
    t.set_grid_size(40, 12);
    let em = t.emulator.as_ref().unwrap();
    assert_eq!(em.cols(), 40);
    assert_eq!(em.rows(), 12);
    assert!((0..em.total_lines()).any(|r| em.line_as_text(r).contains("line0")));
}

#[test]
fn a_resize_is_told_to_a_session_only() {
    let mut t = TerminalState::new(".".to_string(), Vec::new());
    assert!(!t.set_grid_size(40, 12));
    let mut t = TerminalState::with_program(".".to_string(), pty());
    assert!(t.set_grid_size(40, 12));
}

#[test]
fn a_pipe_sends_the_corrected_line() {
    let mut t = TerminalState::with_program(".".to_string(), pipe());
    t.pipe_feed(b"X=4");
    t.pipe_backspace();
    t.pipe_feed(b"2");
    assert_eq!(t.pipe_flush().as_deref(), Some("X=2\r\n"));
    t.pipe_feed(b"python");
    assert_eq!(t.pipe_flush().as_deref(), Some("python -i\r\n"));
    assert_eq!(t.pipe_history, vec!["X=2", "python"]);
}

#[test]
fn bytes_that_are_no_text_are_sent_with_replacement_characters() {
    let mut t = TerminalState::with_program(".".to_string(), pipe());
    t.pipe_feed(&[b'a', 0xff, b'b']);
    assert_eq!(t.pipe_flush().as_deref(), Some("a\u{fffd}b\r\n"));
}

#[test]
fn a_line_without_a_session_is_not_sent() {
    let mut t = TerminalState::new(".".to_string(), Vec::new());
    assert_eq!(t.pipe_flush(), None);
    assert_eq!(t.run_line("ls"), None);
    assert_eq!(t.commands.len(), 1);
    assert_eq!(t.commands[0].command, "ls");
}

#[test]
fn a_line_run_on_a_pipe_is_shown_here() {
    let mut t = TerminalState::with_shell(".".to_string(), Vec::new(), pipe());
    assert_eq!(t.run_line("x=41").as_deref(), Some("x=41\r\n"));
    assert_eq!(t.shell_lines, vec!["x=41"]);
    let mut t = TerminalState::with_shell(".".to_string(), Vec::new(), pty());
    t.run_line("x=41");
    assert!(t.shell_lines.is_empty());
    assert_eq!(t.commands.len(), 1);
}

#[test]
fn the_history_of_a_terminal_is_bounded() {
    let mut t = TerminalState::with_shell(".".to_string(), Vec::new(), pty());
    for i in 0..250 {
        t.run_line(&format!("echo {i}"));
    }
    assert_eq!(t.commands.len(), 200);
    assert_eq!(t.commands[0].command, "echo 50");
}

#[test]
fn leaving_a_repl_clears_its_prompt() {
    let mut t = TerminalState::with_shell(".".to_string(), Vec::new(), pty());
    t.ingest_output_line(">>> ".to_string());
    assert!(t.repl_prompt.is_some());
    t.run_line("exit()");
    assert!(t.repl_prompt.is_none());
}

#[test]
fn output_of_a_session_becomes_lines() {
    let mut t = TerminalState::with_shell(".".to_string(), Vec::new(), pty());
    let events = CommandPoll::collect(
        vec![
            TerminalUpdate::Output(b"one\r\ntw".to_vec()),
            TerminalUpdate::Output(b"o\r\n".to_vec()),
        ],
        None,
    )
    .into_events();
    assert_eq!(events.len(), 2);
    assert!(t.tick(&[], &events));
    assert_eq!(t.shell_lines, vec!["one", "two"]);
    assert!(!t.tick(&[], &[]));
}

#[test]
fn output_reaches_the_grid_of_a_program() {
    let mut t = TerminalState::with_program(".".to_string(), pty());
    let events = vec![TerminalEvent::Output { id: (), bytes: b"int_marker_1234".to_vec() }];
    assert!(t.tick(&[], &events));
    let em = t.emulator.as_ref().unwrap();
    assert_eq!(em.line_as_text(0).trim_end(), "int_marker_1234");
}

#[test]
fn running_commands_of_a_terminal_tick() {
    let mut t = TerminalState::new(
        ".".to_string(),
        vec![CommandEntry::spawn("ls", ".", 3, None)],
    );
    let poll = Poll { lines: vec!["a".to_string()], exit_code: None, closed: false };
    assert!(t.tick(&[poll], &[]));
    assert_eq!(t.commands[0].output_lines, vec!["a"]);
}

//! The edited line, its completion, and what is launched.
use manto::cmd::{CommandEntry, CommandKind, CommandStatus};
use manto::input::{
    autocomplete_input, backspace_input_char, collect_command_candidates, collect_path_candidates,
    completion_request, cursor_to_byte, delete_input_char, history_down, history_up,
    input_char_len, input_view, insert_input_char, longest_common_prefix, move_input_cursor_left,
    move_input_cursor_right, path_token_parts, replace_token, token_bounds, CompletionRequest,
};
use manto::launch::{
    app_argv, clipboard_text, command_argv, default_console_shell, default_shell, exit_code,
    find_on_path, names_of, program_argv, searched_dirs, shell_argv, split_extensions,
};
use manto::terminal_backend::{CommandPoll, LineStream, TerminalEvent, TerminalUpdate};
use manto::ui::pointer::Pointer;

fn strings(v: &[&str]) -> Vec<String> {
    v.iter().map(|s| s.to_string()).collect()
}

fn entry(command: &str) -> CommandEntry {
    CommandEntry {
        cwd: String::new(),
        command: command.to_string(),
        output_lines: Vec::new(),
        status: CommandStatus::Complete,
        kind: CommandKind::External,
        runner: None,
    }
}

#[test]
fn typing_and_erasing_gives_the_line_back() {
    let mut s = "caé".to_string();
    let mut c = 2;
    insert_input_char(&mut s, &mut c, 'ã');
    assert_eq!((s.as_str(), c), ("caãé", 3));
    assert_eq!(input_char_len(&s), 4);
    assert_eq!(cursor_to_byte(&s, 3), 4);
    assert!(backspace_input_char(&mut s, &mut c));
    assert_eq!((s.as_str(), c), ("caé", 2));
    assert!(delete_input_char(&mut s, &mut c));
    assert_eq!((s.as_str(), c), ("ca", 2));
    assert!(!delete_input_char(&mut s, &mut c));
}

#[test]
fn the_cursor_stops_at_both_ends() {
    let mut c = 0;
    assert!(!move_input_cursor_left(&mut c));
    assert!(move_input_cursor_right("ab", &mut c));
    assert!(move_input_cursor_right("ab", &mut c));
    assert!(!move_input_cursor_right("ab", &mut c));
    assert_eq!(c, 2);
    let mut empty = String::new();
    let mut zero = 0;
    assert!(!backspace_input_char(&mut empty, &mut zero));
}

#[test]
fn the_draft_comes_back_from_the_history() {
    let list = vec![entry("one"), entry("two")];
    let mut s = "dra".to_string();
    let mut index = None;
    let mut draft = None;
    assert!(history_up(&list, &mut s, &mut index, &mut draft));
    assert_eq!(s, "two");
    assert!(history_up(&list, &mut s, &mut index, &mut draft));
    assert_eq!(s, "one");
    assert!(history_down(&list, &mut s, &mut index, &mut draft));
    assert_eq!(s, "two");
    assert!(history_down(&list, &mut s, &mut index, &mut draft));
    assert_eq!(s, "dra");
    assert!(!history_up(&[], &mut s, &mut index, &mut draft));
}

#[test]
fn a_long_line_shows_the_part_at_the_cursor() {
    assert_eq!(input_view("abcdef", 6, 4), ("cdef".to_string(), 4));
    assert_eq!(input_view("abc", 1, 10), ("abc".to_string(), 1));
}

#[test]
fn words_are_found_and_replaced() {
    assert_eq!(token_bounds("cd sr", 5), (3, 5));
    let mut s = "cd sr x".to_string();
    let mut c = 5;
    replace_token(&mut s, &mut c, 3, 5, "src/");
    assert_eq!((s.as_str(), c), ("cd src/ x", 7));
}

#[test]
fn the_first_word_asks_for_commands() {
    assert!(matches!(
        completion_request("pw", 2),
        CompletionRequest::Commands(p) if p == "pw"
    ));
    assert!(matches!(
        completion_request("cd s", 4),
        CompletionRequest::Paths { token, dirs_only: true } if token == "s"
    ));
    assert!(matches!(
        completion_request("ls ./s", 6),
        CompletionRequest::Paths { token, dirs_only: false } if token == "./s"
    ));
    assert!(matches!(completion_request("ls s", 4), CompletionRequest::Nothing));
}

#[test]
fn candidates_begin_with_what_was_typed() {
    let found = collect_command_candidates("he", &strings(&["help", "ls", "head"]));
    assert!(found.contains(&"help".to_string()) && found.contains(&"head".to_string()));
    assert!(!found.contains(&"ls".to_string()));
    assert_eq!(path_token_parts("a/b"), ("a/".to_string(), "b".to_string()));
    let paths = collect_path_candidates(
        "a/b",
        &strings(&["bin", "book", "car"]),
        &[true, false, false],
        false,
        '/',
    );
    assert_eq!(paths, [("a/bin/".to_string(), true), ("a/book".to_string(), false)]);
    let dirs =
        collect_path_candidates("b", &strings(&["bin", "book"]), &[true, false], true, '/');
    assert_eq!(dirs, [("bin/".to_string(), true)]);
}

#[test]
fn a_common_beginning_is_completed() {
    assert_eq!(longest_common_prefix(&strings(&["src/", "srv/"])), "sr");
    let mut s = "ls s".to_string();
    let mut c = 4;
    assert!(autocomplete_input(&mut s, &mut c, &strings(&["src/", "srv/"])));
    assert_eq!((s.as_str(), c), ("ls sr", 5));
    assert!(!autocomplete_input(&mut s, &mut c, &[]));
    assert_eq!(s, "ls sr");
}

#[test]
fn shells_and_programs_have_their_words() {
    assert_eq!(default_shell(None), "/bin/sh");
    assert_eq!(default_shell(Some("/bin/zsh".to_string())), "/bin/zsh");
    assert_eq!(default_console_shell(None, None), "cmd.exe");
    assert_eq!(
        default_console_shell(Some("pwsh.exe".to_string()), Some("x".to_string())),
        "pwsh.exe"
    );
    assert_eq!(shell_argv("/bin/sh"), strings(&["/bin/sh", "-i"]));
    assert_eq!(command_argv("ls -l"), strings(&["/bin/sh", "-lc", "ls -l"]));
    assert_eq!(app_argv(" ", "/bin/sh"), strings(&["/bin/sh", "-i"]));
    assert_eq!(app_argv("vi a", "/bin/sh"), strings(&["/bin/sh", "-lc", "vi a"]));
    assert_eq!(program_argv("vi", &strings(&["a b"])), strings(&["vi", "a b"]));
}

#[test]
fn an_end_has_a_code() {
    assert_eq!(exit_code(Some(3), None), 3);
    assert_eq!(exit_code(None, Some(9)), 137);
    assert_eq!(exit_code(None, None), 0);
}

#[test]
fn the_clipboard_ends_without_breaks() {
    assert_eq!(clipboard_text("a\nb\r\n\n"), "a\nb");
}

#[test]
fn a_program_is_searched_with_its_extensions() {
    let exts = split_extensions(".COM;;.EXE");
    assert_eq!(exts, strings(&[".COM", ".EXE"]));
    let names = names_of("tool", &exts);
    assert!(names.contains(&"tool.EXE".to_string()));
    assert_eq!(
        searched_dirs(&strings(&["C:\\a", "C:\\x\\WindowsApps", "C:\\b"])),
        vec![0, 2]
    );
    assert_eq!(
        find_on_path(&[vec![false, false], vec![false, true]]),
        Some((1, 1))
    );
    assert_eq!(find_on_path(&[vec![false]]), None);
}

#[test]
fn a_poll_becomes_events() {
    let p = CommandPoll::collect(
        vec![TerminalUpdate::Output(vec![65]), TerminalUpdate::Output(vec![66])],
        Some(2),
    );
    let v = p.into_events();
    assert!(matches!(&v[0], TerminalEvent::Output { bytes, .. } if bytes == &vec![65]));
    assert!(matches!(&v[1], TerminalEvent::Output { bytes, .. } if bytes == &vec![66]));
    assert!(matches!(&v[2], TerminalEvent::Exit { code: Some(2), .. }));
}

#[test]
fn the_pointer_stays_on_the_screen() {
    let mut p = Pointer::new(100, 100);
    p.clamp_to_bounds(80, 24);
    assert!(p.x < 80 && p.y < 24);
    let at = (p.x, p.y);
    p.clamp_to_bounds(80, 24);
    assert_eq!((p.x, p.y), at);
    let mut q = Pointer::new(0, 0);
    q.move_left();
    q.move_up();
    assert_eq!((q.x, q.y), (1, 1));
}

#[test]
fn a_prompt_is_shown_after_a_moment() {
    let mut s = LineStream::new(0);
    assert_eq!(s.feed(b"one\r\n\ntw", 10), strings(&["one"]));
    assert_eq!(s.feed(b"o\n>>> ", 20), strings(&["two"]));
    assert!(s.feed(b"", 60).is_empty());
    assert_eq!(s.feed(b"", 70), strings(&[">>>"]));
    assert_eq!(s.finish(), None);
    s.feed(b" end ", 71);
    assert_eq!(s.finish(), Some("end".to_string()));
}

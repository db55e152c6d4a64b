//! The configuration, the history and the help text.
use manto::config::{action_for_name, parse_shortcut, Action, Config};
use manto::help::{content, wrapped, wrapped_count, HelpState};
use manto::history::History;
use manto::os::Key;

#[test]
fn defaults_resolve_into_actions() {
    let config = Config::new(1);
    assert_eq!(config.resolve(&Key::CtrlT), Some(Action::NewTerminal));
    assert_eq!(config.resolve(&Key::CtrlF), Some(Action::ToggleMaximize));
    assert_eq!(config.resolve(&Key::AltM), Some(Action::ToggleMouse));
    assert_eq!(config.resolve(&Key::CtrlDelete), Some(Action::Quit));
    assert_eq!(config.resolve(&Key::CtrlH), Some(Action::Help));
    assert_eq!(config.resolve(&Key::F1), Some(Action::Help));
    assert_eq!(config.resolve(&Key::Enter), None);
}

#[test]
fn assign_moves_a_shortcut() {
    let mut config = Config::new(1);
    config.assign(Action::NewTerminal, Key::CtrlE);
    assert_eq!(config.resolve(&Key::CtrlE), Some(Action::NewTerminal));
    assert_eq!(config.resolve(&Key::CtrlT), None);
    config.assign(Action::Minimize, Key::CtrlE);
    assert_eq!(config.resolve(&Key::CtrlE), Some(Action::Minimize));
    assert_eq!(config.resolve(&Key::CtrlT), None);
}

#[test]
fn shortcut_spec_parsing() {
    assert_eq!(parse_shortcut("ctrl+t"), Some(Key::CtrlT));
    assert_eq!(parse_shortcut("ALT+V"), Some(Key::AltV));
    assert_eq!(parse_shortcut("ctrl+h"), Some(Key::CtrlH));
    assert_eq!(parse_shortcut("f1"), Some(Key::F1));
    assert_eq!(parse_shortcut("alt+m"), Some(Key::AltM));
    assert_eq!(parse_shortcut("ctrl+m"), None);
    assert_eq!(parse_shortcut("enter"), Some(Key::Enter));
    assert_eq!(parse_shortcut("space"), Some(Key::Char(' ')));
    assert_eq!(parse_shortcut("ctrl+a"), None);
    assert_eq!(parse_shortcut("garbage"), None);
}

#[test]
fn action_names_parse() {
    assert_eq!(action_for_name("terminal"), Some(Action::NewTerminal));
    assert_eq!(action_for_name("start_menu"), Some(Action::StartMenu));
    assert_eq!(action_for_name("help"), Some(Action::Help));
    assert_eq!(action_for_name("split_v"), Some(Action::SplitVertical));
    assert_eq!(action_for_name("nope"), None);
}

#[test]
fn config_parses_from_json() {
    let config = Config::from_source(
        r#"{
                "theme": 2,
                "shortcuts": { "terminal": "ctrl+e", "quit": "ctrl+q" }
            }"#,
    );

    assert_eq!(config.theme, 2);
    assert_eq!(config.theme(), 2);
    assert_eq!(config.resolve(&Key::CtrlE), Some(Action::NewTerminal));
    assert_eq!(config.resolve(&Key::CtrlQ), Some(Action::Quit));
    assert_eq!(config.resolve(&Key::CtrlF), Some(Action::ToggleMaximize));
}

#[test]
fn broken_config_falls_back_to_defaults() {
    let config = Config::from_source("{not json");

    assert_eq!(config.theme, 1);
    assert_eq!(config.resolve(&Key::CtrlT), Some(Action::NewTerminal));
}

#[test]
fn wrap_count_matches_wrapped_len() {
    let lines = vec!["hello world".to_string(), String::new(), "ab".to_string()];
    for width in [1, 2, 5, 80] {
        let wrapped = wrapped(&lines, width);
        assert_eq!(wrapped_count(&lines, width), wrapped.len());
    }
}

#[test]
fn wrapping_breaks_long_lines() {
    let lines = vec!["abcdef".to_string()];
    assert_eq!(
        wrapped(&lines, 2),
        vec!["ab".to_string(), "cd".to_string(), "ef".to_string()]
    );
    assert_eq!(wrapped(&[String::new()], 5), vec![String::new()]);
}

#[test]
fn the_help_opens_at_its_first_line() {
    let help = HelpState::new();
    assert_eq!(help.scroll, 0);
    assert_eq!(help.lines, content());
    assert!(help.lines.iter().any(|l| l.contains("Ctrl+T")));
}

#[test]
fn load_empty_returns_none() {
    let history = History::new("history".to_string());
    let loaded = history.load(&[], 100);
    assert!(loaded.is_empty());
}

#[test]
fn load_returns_existing_history() {
    let file = vec!["echo hello".to_string(), "ls -la".to_string(), "pwd".to_string()];
    let history = History::new("history".to_string());
    let loaded = history.load(&file, 100);

    assert_eq!(loaded.len(), 3);
    assert_eq!(loaded[0], "echo hello");
    assert_eq!(loaded[1], "ls -la");
    assert_eq!(loaded[2], "pwd");
    assert_eq!(history.load(&file, 2), vec!["ls -la", "pwd"]);
    assert_eq!(history.path(), "history");
}

#[test]
fn append_creates_file_and_line() {
    let history = History::new("history".to_string());
    let loaded = history.append("test command").unwrap();
    assert!(loaded.contains("test command"));
    assert_eq!(loaded, "test command\n");
}

#[test]
fn append_ignores_empty_lines() {
    let history = History::new("history".to_string());
    assert_eq!(history.append("   "), None);
    assert_eq!(history.append(""), None);
}

#[test]
fn the_history_is_below_the_data_or_home_directory() {
    assert_eq!(History::of_user(Some("/data"), Some("/home/me")).path(), "/data/manto/history");
    assert_eq!(History::of_user(None, Some("/home/me/")).path(), "/home/me/.manto/history");
    assert_eq!(History::of_user(None, None).path(), "./.manto/history");
}

//! JSON texts and what is read from them: the menu and the saved layout.
use manto::json::{parse as parse_json, Json, JsonParser};
use manto::menu::{expand_tilde, parse, MenuItem, MenuKind, MenuState};
use manto::session::{json_str, load, parse_session, render_session, SavedApp, Session};

fn parse_json_value(source: &str) -> Json {
    parse_json(source).unwrap()
}

#[test]
fn json_primitives_parse() {
    let value = parse_json_value(r#"{"a": 1, "b": [true, false, null], "c": "x"}"#);
    let Json::Obj(fields) = value else { panic!("expected object") };
    assert_eq!(fields.len(), 3);
    assert_eq!(fields[0], ("a".to_string(), Json::Num("1".to_string())));
    assert_eq!(
        fields[1],
        ("b".to_string(), Json::Arr(vec![Json::Bool(true), Json::Bool(false), Json::Null]))
    );
    assert_eq!(fields[2], ("c".to_string(), Json::Str("x".to_string())));
}

#[test]
fn json_string_handles_escapes_and_unicode() {
    let source = r#""tab\t quote\" slash\\ uni \u00e7\u00e3 emoji \ud83d\ude00""#;
    let Json::Str(text) = parse_json_value(source) else { panic!("expected string") };
    assert_eq!(text, "tab\t quote\" slash\\ uni çã emoji 😀");
}

#[test]
fn json_accepts_trailing_commas() {
    let source = r#"{"a": 1, "b": [1, 2, ], }"#;
    let Json::Obj(fields) = parse_json_value(source) else { panic!("expected object") };
    assert_eq!(fields.len(), 2);
}

#[test]
fn json_rejects_garbage() {
    for bad in ["tru", "{", "[1,", "\"ab", "{1: 2}", "\"bad \x01 ctrl\""] {
        let mut parser = JsonParser::new(bad);
        assert!(parser.parse_value().is_err(), "{bad:?} should fail");
    }
    assert!(parse_json("{} trailing").is_err());
    assert!(parse_json("[1] 2").is_err());
}

#[test]
fn json_field_accessors() {
    let source = r#"{"theme": 1, "name": "manto", "on": true, "items": [1, 2]}"#;
    let value = parse_json_value(source);
    assert_eq!(value.field("theme").and_then(|v| v.num_text()), Some("1"));
    assert_eq!(value.field("theme").and_then(|v| v.as_whole()), Some(1));
    assert_eq!(value.field("name").and_then(|v| v.str_value()), Some("manto"));
    assert_eq!(value.field("on").and_then(|v| v.as_bool()), Some(true));
    assert_eq!(value.field("items").and_then(|v| v.as_arr()).map(|a| a.len()), Some(2));
    assert_eq!(value.field("missing"), None);
}

#[test]
fn empty_or_missing_source_parses_to_empty() {
    assert!(parse("").is_err());
    assert!(parse("  ").is_err());
    assert!(parse("[]").map(|items| items.is_empty()).unwrap_or(false));
}

#[test]
fn manifest_array_parses_into_items() {
    let items = parse(r#"[
            { "label": "Vi", "kind": "app", "command": "vim", "args": ["-R"] },
            { "label": "Shell", "kind": "terminal", "cwd": "~" },
            { "label": "Testes", "kind": "command", "command": "cargo", "args": ["test", "--quiet"], "desktop": 3 }
        ]"#).unwrap();

    assert_eq!(items.len(), 3);
    assert_eq!(items[0].label, "Vi");
    assert_eq!(items[0].kind, MenuKind::App);
    assert_eq!(items[0].command, "vim");
    assert_eq!(items[0].args, vec!["-R"]);
    assert_eq!(items[0].cwd, None);
    assert_eq!(items[0].desktop, None);

    assert_eq!(items[1].kind, MenuKind::Terminal);
    assert_eq!(items[1].cwd.as_deref(), Some("~"));

    assert_eq!(items[2].kind, MenuKind::Command);
    assert_eq!(items[2].desktop, Some(3));
    assert_eq!(items[2].command_line(), "cargo test --quiet");
}

#[test]
fn manifest_object_root_with_items_key() {
    let items = parse(r#"{
            "items": [
                { "label": "A", "command": "top" },
                { "label": "B", "kind": "command", "command": "dir" }
            ]
        }"#).unwrap();
    assert_eq!(items.len(), 2);
    assert_eq!(items[0].kind, MenuKind::App);
    assert_eq!(items[1].kind, MenuKind::Command);
}

#[test]
fn single_object_root_is_one_item() {
    let items = parse(r#"{ "label": "Só eu", "kind": "app", "command": "node" }"#).unwrap();
    assert_eq!(items.len(), 1);
    assert_eq!(items[0].label, "Só eu");
}

#[test]
fn kind_defaults_and_case_insensitive() {
    let items = parse(r#"[
            { "command": "x" },
            { "kind": "TERMINAL", "command": "" },
            { "kind": "run", "command": "y" }
        ]"#).unwrap();
    assert_eq!(items[0].kind, MenuKind::App);
    assert_eq!(items[1].kind, MenuKind::Terminal);
    assert_eq!(items[2].kind, MenuKind::Command);
    assert_eq!(items[1].command_line(), "");
}

#[test]
fn label_falls_back_to_command() {
    let items = parse(r#"[{ "command": "htop" }]"#).unwrap();
    assert_eq!(items[0].label, "htop");
}

#[test]
fn desktop_is_clamped() {
    let items = parse(r#"[
            { "desktop": 0, "command": "a" },
            { "desktop": 9, "command": "b" },
            { "desktop": 2.9, "command": "c" }
        ]"#).unwrap();
    assert_eq!(items[0].desktop, Some(1));
    assert_eq!(items[1].desktop, Some(4));
    assert_eq!(items[2].desktop, Some(2));
}

#[test]
fn args_accept_single_string() {
    let items = parse(r#"[{ "kind": "command", "command": "echo", "args": "olá mundo" }]"#).unwrap();
    assert_eq!(items[0].args, vec!["olá mundo"]);
    assert_eq!(items[0].command_line(), "echo olá mundo");
}

#[test]
fn command_line_joins_command_and_args() {
    let item = MenuItem {
        label: "x".to_string(),
        kind: MenuKind::App,
        command: "python".to_string(),
        args: vec!["-i".to_string(), "main.py".to_string()],
        cwd: None,
        desktop: None,
    };
    assert_eq!(item.command_line(), "python -i main.py");

    let item = MenuItem {
        command: "  ".to_string(),
        args: Vec::new(),
        ..item
    };
    assert_eq!(item.command_line(), "");
}

#[test]
fn resolve_cwd_expands_tilde_and_falls_back() {
    let mut item = MenuItem {
        label: "x".to_string(),
        kind: MenuKind::Terminal,
        command: String::new(),
        args: Vec::new(),
        cwd: None,
        desktop: None,
    };
    assert_eq!(item.resolve_cwd("/base", None), "/base");
    assert!(!item.resolve_cwd("/base", None).is_empty());

    item.cwd = Some("   ".to_string());
    assert_eq!(item.resolve_cwd("/base", None), "/base");

    item.cwd = Some("/tmp/manto".to_string());
    assert_eq!(item.resolve_cwd("/base", None), "/tmp/manto");

    item.cwd = Some("~/src".to_string());
    assert_eq!(item.resolve_cwd("/base", Some("/home/me")), "/home/me/src");
    assert_eq!(item.resolve_cwd("/base", None), "~/src");
}

#[test]
fn a_tilde_is_the_home_directory() {
    let path: Vec<char> = "~".chars().collect();
    assert_eq!(expand_tilde(&path, Some("/home/me")), "/home/me");
    let path: Vec<char> = "~me".chars().collect();
    assert_eq!(expand_tilde(&path, Some("/home/me")), "~me");
}

#[test]
fn menu_state_selection_stays_visible() {
    let items: Vec<MenuItem> = (0..10)
        .map(|i| MenuItem {
            label: format!("item {i}"),
            kind: MenuKind::App,
            command: String::new(),
            args: Vec::new(),
            cwd: None,
            desktop: None,
        })
        .collect();

    let mut state = MenuState::new(items);
    assert_eq!(state.scroll, 0);

    state.selected = 7;
    state.keep_selected_visible(4);
    assert_eq!(state.scroll, 4);

    state.selected = 2;
    state.keep_selected_visible(4);
    assert_eq!(state.scroll, 2);

    state.selected = 9;
    state.scroll = 999;
    state.keep_selected_visible(4);
    assert_eq!(state.scroll, 6);
}

#[test]
fn a_menu_with_bad_arguments_is_an_error() {
    assert!(parse(r#"[{ "command": "x", "args": 3 }]"#).is_err());
    assert!(parse(r#"[1]"#).is_err());
    assert!(parse(r#"3"#).is_err());
}

fn sample_session() -> Session {
    Session {
        current_desktop: 3,
        apps: vec![
            SavedApp {
                title: "Terminal 1".to_string(),
                path: r"D:\projetos\manto".to_string(),
                desktop: 2,
                x: 10,
                y: 4,
                w: 60,
                h: 20,
            },
            SavedApp {
                title: "App \"x\"".to_string(),
                path: "~".to_string(),
                desktop: 3,
                x: 30,
                y: 10,
                w: 40,
                h: 15,
            },
        ],
    }
}

#[test]
fn session_roundtrips_through_disk() {
    let session = sample_session();
    let text = render_session(&session);

    let loaded = load(Some(&text)).expect("saved session must load");
    assert_eq!(loaded.current_desktop, 3);
    assert_eq!(loaded.apps.len(), 2);
    assert_eq!(loaded.apps[0].title, "Terminal 1");
    assert_eq!(loaded.apps[0].path, r"D:\projetos\manto");
    assert_eq!(loaded.apps[0].desktop, 2);
    assert_eq!(
        (
            loaded.apps[0].x,
            loaded.apps[0].y,
            loaded.apps[0].w,
            loaded.apps[0].h
        ),
        (10, 4, 60, 20)
    );
    assert_eq!(loaded.apps[1].title, "App \"x\"");
    assert_eq!(loaded.apps[1].desktop, 3);
}

#[test]
fn missing_file_loads_as_none() {
    assert!(load(None).is_none());
}

#[test]
fn invalid_file_loads_as_none() {
    assert!(load(Some("{not json")).is_none());
    assert!(parse_session("{not json").is_none());
}

#[test]
fn a_session_text_quotes_its_strings() {
    assert_eq!(json_str("a\"b\\c\n"), "\"a\\\"b\\\\c\\n\"");
}

#[test]
fn a_fault_is_told_by_its_byte() {
    let faults = [
        ("\"\\é\"", "invalid escape at byte 3"),
        ("\"\\x\"", "invalid escape at byte 3"),
        ("\"é\\é\"", "invalid escape at byte 5"),
        ("{\"a\"é1}", "expected ':' at byte 5"),
        ("{\"a\"", "expected ':' at byte 4"),
        ("\"\\u0é\"", "invalid hex digit at byte 5"),
        ("\"\\u00", "unterminated unicode escape at byte 5"),
        ("\"\\ud800é\"", "expected low surrogate at byte 8"),
        ("\"\\ud800\\é\"", "expected low surrogate at byte 9"),
        ("\"\\ud800", "expected low surrogate at byte 7"),
        ("\"é\u{1}\"", "control char in string at byte 4"),
        ("[\"é\" 1]", "expected ',' or ']' at byte 6"),
        ("é", "unexpected token at byte 0"),
        ("\"é\" x", "trailing data after JSON value at byte 5"),
    ];
    for (source, message) in faults {
        assert_eq!(parse_json(source), Err(message.to_string()));
    }
}

#[test]
fn a_menu_entry_says_what_it_starts() {
    let mut item = MenuItem {
        label: "Top".to_string(),
        kind: MenuKind::App,
        command: " htop ".to_string(),
        args: vec!["-d".to_string(), "5".to_string()],
        cwd: Some("~/src".to_string()),
        desktop: None,
    };
    let start = item.start("/base", Some("/home/me"), "/bin/sh");
    assert_eq!(start.program.as_deref(), Some("htop -d 5"));
    assert_eq!(start.cwd, "/home/me/src");
    item.command = String::new();
    item.args = Vec::new();
    item.cwd = None;
    let start = item.start("/base", None, "/bin/sh");
    assert_eq!(start.program.as_deref(), Some("/bin/sh"));
    assert_eq!(start.cwd, "/base");
    for kind in [MenuKind::Terminal, MenuKind::Command] {
        item.kind = kind;
        item.command = "ls".to_string();
        assert!(item.start("/base", None, "/bin/sh").program.is_none());
    }
}

#[test]
fn a_menu_is_not_scrolled_past_its_end() {
    let item = MenuItem {
        label: "Top".to_string(),
        kind: MenuKind::App,
        command: "htop".to_string(),
        args: Vec::new(),
        cwd: None,
        desktop: None,
    };
    let mut state = MenuState::new(vec![item; 10]);
    state.selected = 9;
    state.scroll = 9;
    state.keep_selected_visible(4);
    assert_eq!(state.scroll, 6);
    state.selected = 7;
    state.keep_selected_visible(4);
    assert_eq!(state.scroll, 6);
    state.keep_selected_visible(0);
    assert_eq!(state.scroll, 7);
}

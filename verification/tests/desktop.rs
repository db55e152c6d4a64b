//! The desktop: keys, the mouse, and what they ask for.
use manto::app::desktop::layout::Restored;
use manto::app::desktop::{Ask, Desktop, Effect, Outcome};
use manto::app::terminal::ShellSession;
use manto::app::Application;
use manto::cmd::Poll;
use manto::config::{Action, Config};
use manto::menu::{MenuItem, MenuKind};
use manto::os::{HeldArrowKeys, Key, MouseAction, MouseButton, MouseEvent};
use manto::session::SavedApp;
use manto::terminal_backend::TerminalEvent;
use manto::ui::help_view::help_max_scroll;
use manto::ui::pointer::Pointer;
use manto::ui::screen::{BoxSelect, ScreenGrid};
use manto::ui::window::Window;
use manto::wm::{snap_rect, window_matches_geometry, Mode, SnapRegion, SplitDirection};

fn test_desktop(w: u16, h: u16) -> Desktop {
    Desktop {
        mode: Mode::Normal,
        scroll_offset: 0,
        tab_scroll: 0,
        panel_scroll: 0,
        current_desktop: 1,
        next_terminal_id: 1,
        last_space_time: None,
        current_path: ".".to_string(),
        cmd_input: String::new(),
        cmd_cursor: 0,
        history_index: None,
        history_draft: None,
        last_size: (w, h),
        pointer: Pointer::new(12, h - 2),
        applications: Vec::new(),
        commands: Vec::new(),
        screen: ScreenGrid::new(w, h),
        sel: None,
        sel_pos: None,
        clipboard: String::new(),
        config: Config::new(1),
        full_redraw: true,
        last_mouse: None,
        mouse_enabled: true,
        mouse_down: None,
        mouse_selecting: false,
        quit: false,
        outbox: Vec::new(),
    }
}

fn mouse(x: u16, y: u16, kind: MouseAction, button: MouseButton) -> Key {
    Key::Mouse(MouseEvent {
        x,
        y,
        kind,
        button,
        shift: false,
        ctrl: false,
        alt: false,
    })
}

fn press(x: u16, y: u16) -> Key {
    mouse(x, y, MouseAction::Press, MouseButton::Left)
}

fn release(x: u16, y: u16) -> Key {
    mouse(x, y, MouseAction::Release, MouseButton::Left)
}

fn drag(x: u16, y: u16) -> Key {
    mouse(x, y, MouseAction::Drag, MouseButton::Left)
}

fn move_to(x: u16, y: u16) -> Key {
    mouse(x, y, MouseAction::Move, MouseButton::Left)
}

fn wheel_up_at(x: u16, y: u16) -> Key {
    mouse(x, y, MouseAction::Press, MouseButton::WheelUp)
}

fn wheel_down_at(x: u16, y: u16) -> Key {
    mouse(x, y, MouseAction::Press, MouseButton::WheelDown)
}

#[test]
fn click_dock_input_stays_typing_after_release() {
    let mut d = test_desktop(80, 24);
    d.handle_key(press(13, 23), 0);
    assert!(
        matches!(d.mode, Mode::Typing),
        "press should enter typing, got {:?}",
        d.mode
    );
    d.handle_key(release(13, 23), 0);
    assert!(
        matches!(d.mode, Mode::Typing),
        "release must keep typing, got {:?}",
        d.mode
    );
}

#[test]
fn click_terminal_input_keeps_terminal_focus() {
    let mut d = test_desktop(120, 40);
    let app = Application::terminal_window(
        "T",
        Window::new(10, 5, 50, 20, 0),
        ".".to_string(),
        Vec::new(),
        None,
    );
    d.applications.push(app);
    d.handle_key(press(20, 24), 0);
    assert!(
        matches!(d.mode, Mode::TerminalFocus { .. }),
        "press should focus terminal, got {:?}",
        d.mode
    );
    d.handle_key(drag(22, 24), 0);
    d.handle_key(release(22, 24), 0);
    assert!(
        matches!(d.mode, Mode::TerminalFocus { .. }),
        "release must keep focus, got {:?}",
        d.mode
    );
}

#[test]
fn drag_over_terminal_body_selects_screen_box() {
    let mut d = test_desktop(120, 40);
    let app = Application::terminal_window(
        "T",
        Window::new(10, 5, 50, 20, 0),
        ".".to_string(),
        Vec::new(),
        None,
    );
    d.applications.push(app);
    d.handle_key(press(20, 15), 0);
    assert!(
        matches!(d.mode, Mode::Normal),
        "body click stays normal, got {:?}",
        d.mode
    );
    d.handle_key(drag(30, 20), 0);
    let sel = d.sel.expect("drag should open a screen selection");
    assert_eq!(sel.anchor, (14, 19), "anchor is the press (row, col)");
    assert_eq!(sel.extent, (19, 29), "extent follows the pointer");
    assert!(d.mouse_selecting, "drag should be flagged as selecting");
    d.handle_key(release(30, 20), 0);
    assert!(d.sel.is_some(), "release keeps the selection box");
    assert!(!d.mouse_selecting, "release clears the drag state");
}

#[test]
fn click_drag_threshold_ignores_small_jitter() {
    let mut d = test_desktop(120, 40);
    let app = Application::terminal_window(
        "T",
        Window::new(10, 5, 50, 20, 0),
        ".".to_string(),
        Vec::new(),
        None,
    );
    d.applications.push(app);
    d.handle_key(press(20, 15), 0);
    d.handle_key(drag(21, 15), 0);
    assert!(d.sel.is_none(), "jitter must not open a selection");
    assert!(!d.mouse_selecting);
}

#[test]
fn drag_on_titlebar_moves_not_selects() {
    let mut d = test_desktop(120, 40);
    let app = Application::terminal_window(
        "T",
        Window::new(10, 5, 50, 20, 0),
        ".".to_string(),
        Vec::new(),
        None,
    );
    d.applications.push(app);
    d.handle_key(press(20, 6), 0);
    assert!(
        matches!(d.mode, Mode::Moving { .. }),
        "title press enters Moving, got {:?}",
        d.mode
    );
    d.handle_key(drag(30, 6), 0);
    assert!(d.sel.is_none(), "a window move drag must not select text");
    assert!(
        matches!(d.mode, Mode::Moving { .. }),
        "drag keeps moving the window"
    );
}

#[test]
fn plain_click_clears_a_stale_selection() {
    let mut d = test_desktop(120, 40);
    let app = Application::terminal_window(
        "T",
        Window::new(10, 5, 50, 20, 0),
        ".".to_string(),
        Vec::new(),
        None,
    );
    d.applications.push(app);
    d.sel = Some(BoxSelect {
        anchor: (2, 2),
        extent: (4, 4),
    });
    d.sel_pos = Some((2, 2));
    d.handle_key(press(20, 15), 0);
    d.handle_key(release(20, 15), 0);
    assert!(d.sel.is_none(), "a plain click drops the old selection");
}

#[test]
fn missed_release_is_finalized_by_hover_move() {
    let mut d = test_desktop(120, 40);
    let app = Application::terminal_window(
        "T",
        Window::new(10, 5, 50, 20, 0),
        ".".to_string(),
        Vec::new(),
        None,
    );
    d.applications.push(app);
    d.handle_key(press(20, 15), 0);
    d.handle_key(drag(30, 20), 0);
    assert!(d.mouse_selecting, "drag is selecting");
    let sel_before = d.sel.unwrap();
    d.handle_key(move_to(40, 25), 0);
    assert!(!d.mouse_selecting, "hover move ends the stuck drag");
    assert!(d.mouse_down.is_none(), "hover move drops the press anchor");
    assert_eq!(d.sel.unwrap(), sel_before, "the box is kept, not extended");
    d.handle_key(move_to(50, 30), 0);
    d.handle_key(move_to(60, 35), 0);
    assert_eq!(
        d.sel.unwrap(),
        sel_before,
        "hover motion must never extend the box"
    );
}

#[test]
fn escape_releases_stuck_drag_state() {
    let mut d = test_desktop(120, 40);
    let app = Application::terminal_window(
        "T",
        Window::new(10, 5, 50, 20, 0),
        ".".to_string(),
        Vec::new(),
        None,
    );
    d.applications.push(app);
    d.handle_key(press(20, 15), 0);
    d.handle_key(drag(30, 20), 0);
    assert!(d.mouse_selecting);
    d.handle_key(Key::Escape, 0);
    assert!(d.sel.is_none());
    assert!(!d.mouse_selecting);
    assert!(d.mouse_down.is_none());
    d.handle_key(move_to(40, 25), 0);
    d.handle_key(drag(41, 26), 0);
    assert!(
        d.sel.is_none(),
        "a stray drag after Esc must not re-open a selection"
    );
}

#[test]
fn help_toggles_with_action_and_esc() {
    let mut d = test_desktop(120, 40);
    assert!(d.help_idx().is_none(), "no help window initially");
    assert!(
        matches!(d.run_action(Action::Help), Outcome::Done(true)),
        "opening the help redraws"
    );
    assert!(d.help_idx().is_some(), "action opens the help window");
    assert!(matches!(d.run_action(Action::Help), Outcome::Done(true)));
    assert!(d.help_idx().is_none(), "second toggle closes the help");
    d.run_action(Action::Help);
    d.handle_key(Key::Escape, 0);
    assert!(d.help_idx().is_none(), "Esc closes the help window");
}

#[test]
fn help_scrolls_with_arrows_pages_and_wheel() {
    let mut d = test_desktop(120, 40);
    d.run_action(Action::Help);
    let help_idx = d.help_idx().unwrap();
    let scroll = |d: &Desktop| d.applications[help_idx].help.as_ref().unwrap().scroll;
    let inner_h = d.applications[help_idx]
        .window()
        .unwrap()
        .height
        .saturating_sub(2) as usize;

    assert_eq!(scroll(&d), 0);
    d.handle_key(Key::Down, 0);
    assert_eq!(scroll(&d), 1);
    d.handle_key(Key::PageDown, 0);
    assert_eq!(scroll(&d), 1 + inner_h);
    d.handle_key(Key::Up, 0);
    assert_eq!(scroll(&d), inner_h);
    for _ in 0..1000 {
        d.handle_key(Key::PageDown, 0);
    }
    let max_scroll = help_max_scroll(
        &d.applications[help_idx].help.as_ref().unwrap().lines,
        d.applications[help_idx].window().unwrap().width as usize - 2,
        inner_h,
    );
    assert_eq!(
        scroll(&d),
        max_scroll,
        "PageDown at the end clamps to the last page"
    );
    d.handle_key(Key::PageUp, 0);
    assert_eq!(scroll(&d), max_scroll.saturating_sub(inner_h));
    let target = move_to(
        d.applications[help_idx].window().unwrap().position_x + 10,
        d.applications[help_idx].window().unwrap().position_y + 5,
    );
    d.handle_key(target, 0);
    let (wx, wy) = (d.pointer.x + 1, d.pointer.y + 1);
    let before = scroll(&d);
    d.handle_key(wheel_down_at(wx, wy), 0);
    assert_eq!(scroll(&d), before.saturating_sub(1));
    d.handle_key(wheel_up_at(wx, wy), 0);
    assert_eq!(scroll(&d), before);
}

#[test]
fn help_closes_when_clicking_outside() {
    let mut d = test_desktop(120, 40);
    d.run_action(Action::Help);
    let help_idx = d.help_idx().unwrap();
    let (x0, y0, w, h) = {
        let win = d.applications[help_idx].window().unwrap();
        (win.position_x, win.position_y, win.width, win.height)
    };
    let x = x0.saturating_sub(3).max(2);
    let y = y0.saturating_sub(3).max(2);
    d.handle_key(press(x + 1, y + 1), 0);
    d.handle_key(release(x + 1, y + 1), 0);
    assert!(d.help_idx().is_none(), "a click outside the help closes it");
    let _ = (x0, w, h);
}

fn type_line(d: &mut Desktop, line: &str) {
    for c in line.chars() {
        d.handle_key(Key::Char(c), 0);
    }
}

fn pipe(id: usize) -> Option<ShellSession> {
    Some(ShellSession { id, real_pty: false, console: false })
}

fn pty(id: usize) -> Option<ShellSession> {
    Some(ShellSession { id, real_pty: true, console: false })
}

fn terminal(title: &str, session: Option<ShellSession>) -> Application {
    Application::terminal_window(
        title,
        Window::new(10, 5, 50, 20, 0),
        ".".to_string(),
        Vec::new(),
        session,
    )
}

#[test]
fn a_disabled_mouse_does_nothing() {
    let mut d = test_desktop(80, 24);
    d.mouse_enabled = false;
    assert!(matches!(d.step_input(press(13, 23), 5), Outcome::Done(false)));
    assert!(matches!(d.mode, Mode::Normal));
    assert_eq!(d.last_mouse, None);
}

#[test]
fn quitting_saves_the_layout() {
    let mut d = test_desktop(120, 40);
    d.applications.push(terminal("T", None));
    d.run_action(Action::Quit);
    assert!(d.quit);
    let out = d.take_effects();
    assert!(out.iter().any(|e| match e {
        Effect::Save { layout } => layout.apps.len() == 1 && layout.apps[0].title == "T",
        _ => false,
    }));
    assert!(d.take_effects().is_empty());
}

#[test]
fn a_layout_survives_a_restart() {
    let saved = SavedApp {
        title: "Terminal 1".to_string(),
        path: "/a".to_string(),
        desktop: 2,
        x: 3,
        y: 4,
        w: 40,
        h: 12,
    };
    let list = vec![Restored { app: saved, path_exists: true, session: pipe(7) }];
    let d = Desktop::new(".".to_string(), (120, 40), Config::new(1), &[], Some(2), &list);
    let s = d.layout();
    assert_eq!(s.current_desktop, 2);
    assert_eq!(s.apps.len(), 1);
    let a = &s.apps[0];
    assert_eq!((a.title.as_str(), a.path.as_str(), a.desktop), ("Terminal 1", "/a", 2));
    assert_eq!((a.x, a.y, a.w, a.h), (3, 4, 40, 12));
}

#[test]
fn a_lost_directory_is_replaced() {
    let saved = SavedApp {
        title: "T".to_string(),
        path: "/gone".to_string(),
        desktop: 1,
        x: 3,
        y: 4,
        w: 40,
        h: 12,
    };
    let list = vec![Restored { app: saved, path_exists: false, session: None }];
    let d = Desktop::new("/here".to_string(), (120, 40), Config::new(1), &[], None, &list);
    assert_eq!(d.layout().apps[0].path, "/here");
}

#[test]
fn the_dock_runs_a_line() {
    let mut d = test_desktop(80, 24);
    d.mode = Mode::Typing;
    type_line(&mut d, "ls -l");
    assert_eq!((d.cmd_input.as_str(), d.cmd_cursor), ("ls -l", 5));
    match d.handle_key(Key::Enter, 0) {
        Outcome::Ask(Ask::DockCommand { line }) => {
            assert_eq!(line, "ls -l");
            d.run_dock_command(&line, Err(String::new()), 9, None);
        }
        _ => panic!("the line is to be run"),
    }
    assert_eq!(d.commands.len(), 1);
    assert_eq!(d.commands[0].runner, Some(9));
    assert_eq!(d.cmd_input, "");
    assert!(d.take_effects().iter().any(|e| match e {
        Effect::Remember { line } => line == "ls -l",
        _ => false,
    }));
    let done = Poll {
        lines: vec!["a".to_string()],
        exit_code: Some(0),
        closed: true,
    };
    assert!(d.tick(&[done]));
    assert_eq!(d.commands[0].output_lines, vec!["a"]);
    d.handle_key(Key::Up, 0);
    assert_eq!(d.cmd_input, "ls -l");
    d.handle_key(Key::Down, 0);
    assert_eq!(d.cmd_input, "");
}

#[test]
fn the_dock_completes() {
    let mut d = test_desktop(80, 24);
    d.mode = Mode::Typing;
    type_line(&mut d, "cd s");
    assert!(matches!(
        d.handle_key(Key::Tab, 0),
        Outcome::Ask(Ask::CompleteDock)
    ));
    assert!(d.complete_dock(&["src/".to_string()]));
    assert_eq!(d.cmd_input, "cd src/");
}

#[test]
fn the_dock_opens_a_program() {
    let mut d = test_desktop(120, 40);
    d.mode = Mode::Typing;
    type_line(&mut d, "python -i");
    match d.handle_key(Key::Enter, 0) {
        Outcome::Ask(Ask::Program { program, line }) => {
            assert_eq!(program, Some("python -i".to_string()));
            d.open_program("python -i", &line, pty(3));
        }
        _ => panic!("a program is to be opened"),
    }
    assert_eq!(d.applications.len(), 1);
    assert!(d.applications[0].terminal.as_ref().unwrap().interactive);
    assert_eq!(d.cmd_input, "");
}

#[test]
fn a_terminal_runs_its_line_in_its_shell() {
    let mut d = test_desktop(120, 40);
    d.applications.push(terminal("T", pipe(4)));
    d.mode = Mode::TerminalFocus { app_idx: 0 };
    type_line(&mut d, "pwd");
    d.handle_key(Key::Enter, 0);
    assert!(d.take_effects().iter().any(|e| match e {
        Effect::Write { session, bytes } => *session == 4 && bytes == b"pwd\r\n",
        _ => false,
    }));
    let event = TerminalEvent::Output { id: (), bytes: b"/a\n".to_vec() };
    let idle = Poll { lines: Vec::new(), exit_code: None, closed: false };
    assert!(d.tick_terminal(0, &[idle], &[event]));
    let shown = &d.applications[0].terminal.as_ref().unwrap().shell_lines;
    assert_eq!(shown.last().unwrap(), "/a");
}

#[test]
fn a_terminal_without_a_shell_asks_for_the_line() {
    let mut d = test_desktop(120, 40);
    d.applications.push(terminal("T", None));
    d.mode = Mode::TerminalFocus { app_idx: 0 };
    type_line(&mut d, "ls");
    match d.handle_key(Key::Enter, 0) {
        Outcome::Ask(Ask::TerminalCommand { app_idx, line }) => {
            assert_eq!((app_idx, line.as_str()), (0, "ls"));
            d.run_terminal_command(app_idx, &line, Err(String::new()), 2, None);
        }
        _ => panic!("the line is to be run"),
    }
    assert_eq!(d.applications[0].terminal.as_ref().unwrap().commands.len(), 1);
    d.interrupt(0);
    assert!(d.take_effects().iter().any(|e| matches!(e, Effect::Stop { runner: 2 })));
}

#[test]
fn a_program_gets_its_keys() {
    let mut d = test_desktop(120, 40);
    d.applications.push(Application::interactive_terminal_window(
        "App",
        Window::new(4, 4, 60, 25, 0),
        ".".to_string(),
        pty(6),
    ));
    d.mode = Mode::TerminalFocus { app_idx: 0 };
    d.handle_key(Key::Char('x'), 0);
    d.handle_key(Key::Up, 0);
    let out = d.take_effects();
    assert!(matches!(&out[0], Effect::Write { session: 6, bytes } if bytes == b"x"));
    assert!(matches!(&out[1], Effect::Write { session: 6, bytes } if bytes == b"\x1b[A"));
}

#[test]
fn a_selection_is_copied() {
    let mut d = test_desktop(80, 24);
    d.screen.set_cell(2, 1, 'h');
    d.screen.set_cell(3, 1, 'i');
    d.sel = Some(BoxSelect { anchor: (1, 2), extent: (1, 3) });
    assert!(d.copy_screen_selection());
    assert_eq!(d.clipboard, "hi");
    assert!(d.sel.is_none());
    assert!(matches!(&d.take_effects()[0], Effect::Copy { text } if text == "hi"));
    assert_eq!(d.read_clipboard(Some("other".to_string())), Some("other".to_string()));
    assert_eq!(d.read_clipboard(None), Some("hi".to_string()));
    assert!(!d.copy_screen_selection());
}

#[test]
fn terminals_are_opened_split_and_snapped() {
    let mut d = test_desktop(120, 40);
    assert!(matches!(
        d.run_action(Action::NewTerminal),
        Outcome::Ask(Ask::Terminal)
    ));
    assert!(d.open_terminal(&["ls".to_string()], pipe(1)));
    assert_eq!(d.applications.len(), 1);
    assert_eq!(d.applications[0].title, "Terminal 1");
    match d.run_action(Action::SplitVertical) {
        Outcome::Ask(Ask::Split { direction, path }) => {
            assert!(matches!(direction, SplitDirection::Vertical));
            assert_eq!(path, ".");
            assert!(d.split_terminal(direction, pipe(2)));
        }
        _ => panic!("a shell is to be started"),
    }
    assert_eq!(d.applications.len(), 2);
    d.mode = Mode::Normal;
    assert!(matches!(
        d.handle_key(Key::AltLeft, 0),
        Outcome::Ask(Ask::HeldArrows { key: Key::AltLeft })
    ));
    assert!(d.snap_window(Key::AltLeft, HeldArrowKeys::default()));
    let (x, y, w, h) = snap_rect(120, 40, SnapRegion::Left);
    assert!(window_matches_geometry(d.applications[1].window().unwrap(), x, y, w, h));
}

fn item(label: &str, kind: MenuKind, command: &str) -> MenuItem {
    MenuItem {
        label: label.to_string(),
        kind,
        command: command.to_string(),
        args: Vec::new(),
        cwd: None,
        desktop: None,
    }
}

#[test]
fn the_menu_launches_its_entries() {
    let mut d = test_desktop(120, 40);
    assert!(matches!(d.run_action(Action::StartMenu), Outcome::Ask(Ask::Menu)));
    let items = vec![
        item("Shell", MenuKind::Terminal, ""),
        item("Top", MenuKind::App, "top"),
    ];
    d.open_start_menu(items);
    assert!(d.start_menu_idx().is_some());
    d.handle_key(Key::Down, 0);
    match d.handle_key(Key::Enter, 0) {
        Outcome::Ask(Ask::Launch { item }) => {
            assert_eq!(item.label, "Top");
            d.launch_menu_item(&item, None, "/bin/sh", &[], pty(8));
        }
        _ => panic!("an entry is to be launched"),
    }
    assert!(d.start_menu_idx().is_none());
    assert_eq!(d.applications.len(), 1);
    assert_eq!(d.applications[0].title, "Top");
}

#[test]
fn two_quick_clicks_on_a_title_maximize() {
    let mut d = test_desktop(120, 40);
    d.applications.push(terminal("T", None));
    d.pointer = Pointer::new(20, 5);
    d.space_action(1000);
    assert!(matches!(d.mode, Mode::Moving { .. }));
    d.space_action(1200);
    assert!(d.applications[0].is_maximized());
}

#[test]
fn a_frame_is_drawn_after_each_step() {
    let mut d = test_desktop(120, 40);
    d.applications.push(terminal("T", None));
    let mut out = String::new();
    assert!(d.draw(&mut out, 0));
    assert!(out.contains("\u{1b}[2J"));
    assert!(!d.full_redraw);
    let prev = (d.pointer.x, d.pointer.y);
    match d.step_input(Key::Up, 0) {
        Outcome::Done(changed) => assert!(d.settle(prev, changed)),
        Outcome::Ask(_) => panic!("the pointer only moves"),
    }
    assert_eq!(d.pointer.y, prev.1 - 1);
}

#[test]
fn a_new_size_is_taken_over() {
    let mut d = test_desktop(120, 40);
    d.pointer = Pointer::new(119, 39);
    assert!(d.on_second_tick((80, 24)));
    assert_eq!(d.last_size, (80, 24));
    assert!(d.pointer.x < 80 && d.pointer.y < 24);
    assert!(d.full_redraw);
}

#[test]
fn pasting_goes_to_the_program() {
    let mut d = test_desktop(120, 40);
    d.applications.push(Application::interactive_terminal_window(
        "App",
        Window::new(4, 4, 60, 25, 0),
        ".".to_string(),
        pty(6),
    ));
    d.mode = Mode::TerminalFocus { app_idx: 0 };
    assert!(d.paste(0, Some("ab".to_string())));
    assert!(matches!(
        &d.take_effects()[0],
        Effect::Write { session: 6, bytes } if bytes == b"ab"
    ));
}

#[test]
fn a_resize_is_typed() {
    let mut d = test_desktop(120, 40);
    d.applications.push(terminal("T", None));
    d.run_action(Action::ResizeActive);
    assert!(matches!(d.mode, Mode::Resizing { .. }));
    for k in [Key::Char('x'), Key::Char('='), Key::Char('3'), Key::Char('0'), Key::Enter] {
        d.handle_key(k, 0);
    }
    d.handle_key(Key::Enter, 0);
    assert_eq!(d.applications[0].window().unwrap().width, 30);
    assert!(matches!(d.mode, Mode::Normal));
}

#[test]
fn escape_leads_back_to_the_desktop() {
    for key in [Key::Escape, Key::End] {
        let mut d = test_desktop(120, 40);
        d.applications.push(terminal("T", None));
        d.cmd_input = "half".to_string();
        d.mode = Mode::Typing;
        d.handle_key(key, 0);
        assert!(matches!(d.mode, Mode::Normal));
        assert_eq!(d.cmd_input, "half");
        d.mode = Mode::TerminalFocus { app_idx: 0 };
        d.handle_key(key, 0);
        assert!(matches!(d.mode, Mode::Normal));
        assert!(d.take_effects().is_empty());
    }
}

#[test]
fn page_keys_do_not_reach_the_program() {
    let mut d = test_desktop(120, 40);
    d.applications.push(Application::interactive_terminal_window(
        "App",
        Window::new(4, 4, 60, 25, 0),
        ".".to_string(),
        pty(6),
    ));
    d.mode = Mode::TerminalFocus { app_idx: 0 };
    d.handle_key(Key::PageUp, 0);
    d.handle_key(Key::PageDown, 0);
    assert!(d.take_effects().is_empty());
}

#[test]
fn a_resize_can_be_given_up() {
    let mut d = test_desktop(120, 40);
    d.applications.push(terminal("T", None));
    d.run_action(Action::ResizeActive);
    d.handle_key(Key::Right, 0);
    d.handle_key(Key::Escape, 0);
    assert!(matches!(d.mode, Mode::Normal));
    assert_eq!(d.applications[0].window().unwrap().width, 50);
}

#[test]
fn digits_show_their_desktop() {
    let mut d = test_desktop(120, 40);
    d.handle_key(Key::Char('3'), 0);
    assert_eq!(d.current_desktop, 3);
    d.handle_key(Key::Char('1'), 0);
    assert_eq!(d.current_desktop, 1);
}

#[test]
fn the_mouse_is_switched_off_and_on() {
    let mut d = test_desktop(120, 40);
    d.run_action(Action::ToggleMouse);
    assert!(!d.mouse_enabled);
    d.run_action(Action::ToggleMouse);
    assert!(d.mouse_enabled);
}

#[test]
fn a_right_click_raises_the_window() {
    let mut d = test_desktop(120, 40);
    d.applications.push(terminal("A", None));
    d.applications.push(Application::windowed("B", Window::new(70, 5, 20, 8, 1)));
    d.handle_key(mouse(20, 12, MouseAction::Press, MouseButton::Right), 0);
    assert_eq!(d.applications[1].title, "A");
    assert_eq!(d.applications[1].window().unwrap().layer, 2);
}

#[test]
fn a_window_takes_its_desktop_along() {
    let mut d = test_desktop(120, 40);
    d.applications.push(terminal("A", None));
    d.handle_key(Key::Ctrl2, 0);
    assert_eq!(d.current_desktop, 2);
    assert_eq!(d.applications[0].desktop, 2);
}

#[test]
fn shifted_arrows_select() {
    let mut d = test_desktop(120, 40);
    d.pointer = Pointer::new(10, 10);
    d.handle_key(Key::ShiftRight, 0);
    d.handle_key(Key::ShiftDown, 0);
    let sel = d.sel.unwrap();
    assert_eq!((sel.anchor, sel.extent), ((10, 10), (11, 11)));
}

#[test]
fn the_same_line_is_remembered_once_in_a_row() {
    let mut d = test_desktop(120, 40);
    d.applications.push(terminal("T", pipe(4)));
    d.record_command("ls");
    let once = d.commands.len();
    d.record_command("ls");
    assert_eq!(d.commands.len(), once);
}

#[test]
fn a_round_of_ticks_goes_from_terminal_to_terminal() {
    let mut d = test_desktop(120, 40);
    assert_eq!(d.next_tick(0, false), None);
    d.run_action(Action::Help);
    d.applications.push(terminal("A", pipe(1)));
    d.applications.push(terminal("B", pipe(2)));
    let first = d.applications.len() - 2;
    assert_eq!(d.next_tick(0, false), Some(first));
    assert_eq!(d.next_tick(first + 1, false), Some(first + 1));
    assert_eq!(d.next_tick(first + 2, false), None);
    assert_eq!(d.next_tick(0, true), None);
}

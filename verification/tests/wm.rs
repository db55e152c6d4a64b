//! The window manager.
use manto::app::terminal::ShellSession;
use manto::app::Application;
use manto::cmd::CommandEntry;
use manto::os::{HeldArrowKeys, Key};
use manto::ui::pointer::Pointer;
use manto::ui::window::Window;
use manto::wm::{
    active_window_idx, apply_resize_edit, bring_window_to_front, close_active_window,
    enter_active_resize_mode, focus_relative_window, max_tab_scroll, minimize_active_window,
    move_active_window_to_desktop, normalize_host_path, push_shell_command, resolve_snap_region,
    resolve_virtual_path, shell_need, snap_active_window, snap_rect, split_active_terminal_window,
    sync_terminal_window_metrics, tab_layout, toggle_active_maximize, toggle_help_window,
    toggle_start_menu, topmost_window_at, window_matches_geometry, Mode, ResizeAxis,
    ResizeEditState, ResizeOp, ShellNeed, SnapRegion, SplitDirection,
};

#[test]
fn ctrl_arrow_combines_into_quadrant() {
    assert!(matches!(
        resolve_snap_region(
            &Key::AltLeft,
            HeldArrowKeys {
                up: true,
                ..Default::default()
            }
        ),
        Some(SnapRegion::TopLeft)
    ));
    assert!(matches!(
        resolve_snap_region(
            &Key::AltUp,
            HeldArrowKeys {
                left: true,
                ..Default::default()
            }
        ),
        Some(SnapRegion::TopLeft)
    ));
}

#[test]
fn ctrl_arrow_same_axis_stays_half_snap() {
    assert!(matches!(
        resolve_snap_region(&Key::AltUp, HeldArrowKeys::default()),
        Some(SnapRegion::Top)
    ));
    assert!(matches!(
        resolve_snap_region(&Key::AltDown, HeldArrowKeys::default()),
        Some(SnapRegion::Bottom)
    ));
}

#[test]
fn alt_r_enters_resize_mode_on_active_window() {
    let applications = vec![Application::windowed("Test", Window::new(10, 5, 20, 8, 0))];
    let mut mode = Mode::Normal;
    let mut pointer = Pointer::new(1, 1);

    assert!(enter_active_resize_mode(
        &applications,
        &mut mode,
        1,
        &mut pointer,
        120,
        40
    ));
    assert!(matches!(mode, Mode::Resizing { app_idx: 0, .. }));
    assert_eq!(pointer.x, 29);
    assert_eq!(pointer.y, 12);
}

#[test]
fn apply_resize_edit_updates_width_preview() {
    let win = Window::new(10, 5, 20, 8, 0);
    let mut pointer = Pointer::new(29, 12);
    let edit = ResizeEditState {
        axis: ResizeAxis::Width,
        op: Some(ResizeOp::Add),
        value: "5".to_string(),
    };

    assert!(apply_resize_edit(&win, &mut pointer, 120, 40, &edit));
    assert_eq!(pointer.x, 34);
    assert_eq!(pointer.y, 12);
}

#[test]
fn apply_resize_edit_sets_height_preview() {
    let win = Window::new(10, 5, 20, 8, 0);
    let mut pointer = Pointer::new(29, 12);
    let edit = ResizeEditState {
        axis: ResizeAxis::Height,
        op: Some(ResizeOp::Assign),
        value: "4".to_string(),
    };

    assert!(apply_resize_edit(&win, &mut pointer, 120, 40, &edit));
    assert_eq!(pointer.x, 29);
    assert_eq!(pointer.y, 8);
}

#[test]
fn top_snap_toggles_with_maximize_on_repeat() {
    let mut applications = vec![Application::windowed("Test", Window::new(10, 5, 20, 8, 0))];
    let mut mode = Mode::Normal;
    let top = snap_rect(120, 40, SnapRegion::Top);

    assert!(snap_active_window(
        &mut applications,
        &mut mode,
        1,
        120,
        40,
        SnapRegion::Top
    ));
    let win = applications[0].window().unwrap();
    assert!(window_matches_geometry(win, top.0, top.1, top.2, top.3));
    assert!(!applications[0].is_maximized());

    assert!(snap_active_window(
        &mut applications,
        &mut mode,
        1,
        120,
        40,
        SnapRegion::Top
    ));
    assert!(applications[0].is_maximized());

    assert!(snap_active_window(
        &mut applications,
        &mut mode,
        1,
        120,
        40,
        SnapRegion::Top
    ));
    let win = applications[0].window().unwrap();
    assert!(window_matches_geometry(win, top.0, top.1, top.2, top.3));
    assert!(!applications[0].is_maximized());
}

#[test]
fn topmost_window_at_honors_layer() {
    let mut applications = vec![
        Application::windowed("A", Window::new(10, 5, 20, 8, 0)),
        Application::windowed("B", Window::new(10, 5, 20, 8, 0)),
    ];
    applications[1].window_mut().unwrap().layer = 3;
    applications[0].window_mut().unwrap().layer = 1;

    assert_eq!(topmost_window_at(&applications, 1, 15, 7), Some(1));

    let idx = bring_window_to_front(&mut applications, 0);
    assert_eq!(
        applications[idx].window().unwrap().layer,
        4,
        "raise must bump the window's layer"
    );
    assert_eq!(topmost_window_at(&applications, 1, 15, 7), Some(idx));
}

#[test]
fn active_window_favours_maximum_layer() {
    let mut applications = vec![
        Application::windowed("A", Window::new(2, 2, 20, 8, 0)),
        Application::windowed("B", Window::new(5, 5, 20, 8, 0)),
        Application::windowed("C", Window::new(10, 10, 30, 10, 0)),
    ];
    applications[1].window_mut().unwrap().layer = 5;
    applications[2].window_mut().unwrap().layer = 1;
    assert_eq!(active_window_idx(&applications, &Mode::Normal, 1), Some(1));
}

fn one_terminal() -> Vec<Application> {
    vec![Application::terminal_window(
        "Terminal 1",
        Window::new(10, 5, 20, 8, 0),
        "D:\\tmp".to_string(),
        Vec::new(),
        None,
    )]
}

#[test]
fn split_vertical_creates_new_terminal_on_right() {
    let mut applications = one_terminal();
    let mode = Mode::TerminalFocus { app_idx: 0 };
    let mut next_terminal_id = 2;

    let new_idx = split_active_terminal_window(
        &mut applications,
        &mode,
        &mut next_terminal_id,
        1,
        SplitDirection::Vertical,
        None,
    )
    .unwrap();

    assert_eq!(applications.len(), 2);
    assert_eq!(new_idx, 1);
    let left = applications[0].window().unwrap();
    let right = applications[1].window().unwrap();
    assert_eq!(
        (left.position_x, left.position_y, left.width, left.height),
        (10, 5, 10, 8)
    );
    assert_eq!(
        (
            right.position_x,
            right.position_y,
            right.width,
            right.height
        ),
        (20, 5, 10, 8)
    );
    assert_eq!(applications[1].terminal.as_ref().unwrap().path, "D:\\tmp");
}

#[test]
fn split_horizontal_creates_new_terminal_below() {
    let mut applications = one_terminal();
    let mode = Mode::TerminalFocus { app_idx: 0 };
    let mut next_terminal_id = 2;

    let new_idx = split_active_terminal_window(
        &mut applications,
        &mode,
        &mut next_terminal_id,
        1,
        SplitDirection::Horizontal,
        None,
    )
    .unwrap();

    assert_eq!(applications.len(), 2);
    assert_eq!(new_idx, 1);
    let top = applications[0].window().unwrap();
    let bottom = applications[1].window().unwrap();
    assert_eq!(
        (top.position_x, top.position_y, top.width, top.height),
        (10, 5, 20, 4)
    );
    assert_eq!(
        (
            bottom.position_x,
            bottom.position_y,
            bottom.width,
            bottom.height
        ),
        (10, 9, 20, 4)
    );
    assert_eq!(applications[1].terminal.as_ref().unwrap().path, "D:\\tmp");
}

#[test]
fn a_window_too_small_is_not_split() {
    let mut applications = vec![Application::terminal_window(
        "Terminal 1",
        Window::new(10, 5, 9, 5, 0),
        ".".to_string(),
        Vec::new(),
        None,
    )];
    let mode = Mode::TerminalFocus { app_idx: 0 };
    let mut id = 2;
    assert_eq!(
        split_active_terminal_window(
            &mut applications,
            &mode,
            &mut id,
            1,
            SplitDirection::Vertical,
            None
        ),
        None
    );
    assert_eq!(id, 2);
}

#[test]
fn toggles_undo_themselves() {
    let mut applications = vec![Application::windowed("Test", Window::new(10, 5, 20, 8, 0))];
    let mut tabs = 0;
    toggle_help_window(&mut applications, 1, 120, 40, &mut tabs);
    assert_eq!(applications.len(), 2);
    toggle_help_window(&mut applications, 1, 120, 40, &mut tabs);
    assert_eq!(applications.len(), 1);
    toggle_start_menu(&mut applications, 1, 40, &mut tabs, Vec::new());
    assert!(applications[1].is_menu);
    toggle_start_menu(&mut applications, 1, 40, &mut tabs, Vec::new());
    assert_eq!(applications.len(), 1);
    toggle_active_maximize(&mut applications, &Mode::Normal, 1, 120, 40);
    assert!(applications[0].is_maximized());
    toggle_active_maximize(&mut applications, &Mode::Normal, 1, 120, 40);
    let w = applications[0].window().unwrap();
    assert!(window_matches_geometry(w, 10, 5, 20, 8));
}

#[test]
fn minimized_windows_become_tabs() {
    let mut applications = vec![
        Application::windowed("A", Window::new(2, 2, 20, 8, 0)),
        Application::windowed("B", Window::new(5, 5, 20, 8, 0)),
    ];
    let mut mode = Mode::Normal;
    let mut tabs = 0;
    assert!(minimize_active_window(&mut applications, &mut mode, 1, 40, &mut tabs));
    assert_eq!(tab_layout(&applications, 1, 40, 0), vec![(1, 1, 8)]);
    assert_eq!(max_tab_scroll(&applications, 1, 40), 0);
    assert!(close_active_window(&mut applications, &mut mode, 1, 40, &mut tabs));
    assert!(!close_active_window(&mut applications, &mut mode, 1, 40, &mut tabs));
    assert_eq!(applications.len(), 1);
}

#[test]
fn the_focus_goes_round() {
    let mut applications = vec![
        Application::windowed("A", Window::new(2, 2, 20, 8, 0)),
        Application::windowed("B", Window::new(5, 5, 20, 8, 0)),
    ];
    let mut mode = Mode::Normal;
    assert!(focus_relative_window(&mut applications, &mut mode, 1, false));
    assert_eq!(applications[1].title, "A");
    assert!(focus_relative_window(&mut applications, &mut mode, 1, true));
    assert_eq!(applications[1].title, "B");
    assert!(!focus_relative_window(&mut applications, &mut mode, 2, false));
}

#[test]
fn a_window_takes_the_view_to_its_new_desktop() {
    let mut applications = vec![Application::windowed("A", Window::new(2, 2, 20, 8, 0))];
    let mut mode = Mode::Normal;
    let mut desktop = 1;
    let mut tabs = 0;
    assert!(move_active_window_to_desktop(
        &mut applications,
        &mut mode,
        &mut desktop,
        3,
        40,
        &mut tabs
    ));
    assert_eq!(desktop, 3);
    assert_eq!(applications[0].desktop, 3);
}

#[test]
fn a_session_is_told_the_size_of_its_window() {
    let s = ShellSession { id: 5, real_pty: true, console: false };
    let mut applications = vec![Application::interactive_terminal_window(
        "App",
        Window::new(4, 4, 60, 25, 0),
        ".".to_string(),
        Some(s),
    )];
    let told = sync_terminal_window_metrics(&mut applications);
    assert_eq!(told, vec![(5, 58, 23)]);
}

#[test]
fn lines_say_what_they_need() {
    assert_eq!(shell_need("pwd"), ShellNeed::Nothing);
    assert_eq!(shell_need("cd"), ShellNeed::Nothing);
    assert_eq!(shell_need("cd src"), ShellNeed::Resolve("src".to_string()));
    assert_eq!(shell_need(" ls -l "), ShellNeed::Spawn("ls -l".to_string()));
}

#[test]
fn a_change_of_directory_is_kept() {
    let mut commands: Vec<CommandEntry> = Vec::new();
    let mut path = "/a".to_string();
    push_shell_command(&mut commands, &mut path, "cd b", Ok("/a/b".to_string()), 0, None);
    assert_eq!(path, "/a/b");
    assert_eq!(commands[0].output_lines, vec!["/a/b"]);
    push_shell_command(&mut commands, &mut path, "cd x", Err("no x".to_string()), 0, None);
    assert_eq!(path, "/a/b");
    assert_eq!(commands[1].output_lines, vec!["no x"]);
    push_shell_command(&mut commands, &mut path, "  ", Err(String::new()), 0, None);
    assert_eq!(commands.len(), 2);
}

#[test]
fn host_paths_are_shown_plainly() {
    assert_eq!(normalize_host_path("/home/me", false), "/home/me");
    assert_eq!(normalize_host_path("\\\\?\\C:\\x", true), "C:\\x");
}

#[test]
fn a_change_of_directory_can_fail() {
    let go = |found| resolve_virtual_path("/a", " b ", found, false);
    assert_eq!(go(Ok(("/a/b".to_string(), true))), Ok("/a/b".to_string()));
    assert_eq!(
        go(Ok(("/a/b".to_string(), false))),
        Err("cd: b: not a directory".to_string())
    );
    assert_eq!(go(Err("gone".to_string())), Err("cd: b: gone".to_string()));
    assert_eq!(
        resolve_virtual_path("/a", "  ", Err("gone".to_string()), false),
        Ok("/a".to_string())
    );
}

#[test]
fn halves_and_quarters_tile_the_desktop() {
    let left = snap_rect(120, 40, SnapRegion::Left);
    let right = snap_rect(120, 40, SnapRegion::Right);
    assert_eq!(left.0 + left.2, right.0);
    assert_eq!((left.1, left.3), (right.1, right.3));
    let top = snap_rect(120, 40, SnapRegion::Top);
    let bottom = snap_rect(120, 40, SnapRegion::Bottom);
    assert_eq!(top.1 + top.3, bottom.1);
    let quarter = snap_rect(120, 40, SnapRegion::TopLeft);
    assert_eq!((quarter.0, quarter.2), (left.0, left.2));
    assert_eq!((quarter.1, quarter.3), (top.1, top.3));
}

//! The grid of the screen and the frames drawn into it.
use manto::app::terminal::{ShellSession, TerminalState};
use manto::app::{Application, DisplayMode};
use manto::cmd::CommandEntry;
use manto::terminal_emulator::{Attributes, Cell, Style, Terminal};
use manto::ui::ansi::clear;
use manto::ui::pointer::Pointer;
use manto::ui::render::{
    caret_position, compute_render_state, effective_cursor, emit_frame_diff, is_drawable, render,
    Frame,
};
use manto::ui::screen::{BoxSelect, ScreenGrid, StampWriter};
use manto::ui::scrollbar::scrollbar_thumb;
use manto::ui::window::Window;
use manto::ui::{
    desktop_at, draw_desktop, draw_scrollbar, draw_status_bar, draw_tab, tab_char_at,
};
use manto::wm::Mode;

fn session() -> Option<ShellSession> {
    Some(ShellSession { id: 1, real_pty: true, console: false })
}

fn stamped(w: u16, h: u16, text: &str) -> ScreenGrid {
    let mut s = StampWriter::new(ScreenGrid::new(w, h));
    s.stamp(text.as_bytes());
    s.into_grid()
}

#[test]
fn box_select_bounds() {
    let s = BoxSelect {
        anchor: (2, 1),
        extent: (5, 3),
    };
    assert_eq!(s.bounds(), (2, 5, 1, 3));
    let s = BoxSelect {
        anchor: (5, 3),
        extent: (2, 1),
    };
    assert_eq!(s.bounds(), (2, 5, 1, 3));
}

#[test]
fn stamp_writer_builds_grid() {
    let mut w = StampWriter::new(ScreenGrid::new(12, 4));
    w.stamp("\x1b[2J\x1b[H".as_bytes());
    w.stamp("hello".as_bytes());
    w.stamp("\r\nworld".as_bytes());
    w.stamp("\x1b[0m".as_bytes());
    w.stamp("\x1b[1;2HX".as_bytes());
    let grid = w.into_grid();
    assert_eq!(grid.char_at(0, 0), 'h');
    assert_eq!(grid.char_at(4, 0), 'o');
    assert_eq!(grid.char_at(0, 1), 'w');
    assert_eq!(grid.char_at(1, 0), 'X');
    assert_eq!(grid.box_text(0, 0, 4, 0), "hXllo");
    assert_eq!(grid.box_text(0, 0, 4, 1), "hXllo\nworld");
}

#[test]
fn stamp_writer_handles_unicode() {
    let grid = stamped(12, 2, "café");
    assert_eq!(grid.box_text(0, 0, 5, 0), "café");
}

#[test]
fn box_text_right_trims() {
    let grid = stamped(10, 1, "ab  ");
    assert_eq!(grid.box_text(0, 0, 9, 0), "ab");
}

fn strip_sgr(seg: &str) -> String {
    let mut out = String::new();
    let bytes = seg.as_bytes();
    let mut i = 0;
    while i < bytes.len() {
        if bytes[i] == 0x1b && i + 1 < bytes.len() && bytes[i + 1] == b'[' {
            if let Some(rel) = bytes[i + 2..].iter().position(|&b| b.is_ascii_alphabetic()) {
                i += 2 + rel + 1;
                continue;
            }
        }
        out.push(bytes[i] as char);
        i += 1;
    }
    out
}

fn out_of_bounds_moves(buf: &[u8], w: u16, h: u16) -> Vec<(u16, u16)> {
    let bytes = buf;
    let mut bad = Vec::new();
    let mut i = 0;
    while i < bytes.len() {
        if bytes[i] == 0x1b && i + 1 < bytes.len() && bytes[i + 1] == b'[' {
            if let Some(rel) = bytes[i + 2..].iter().position(|&b| b == b'H') {
                let seg = String::from_utf8_lossy(&bytes[i + 2..i + 2 + rel]).into_owned();
                let clean = strip_sgr(&seg);
                if let Some((r, c)) = clean.split_once(';') {
                    if let (Ok(row), Ok(col)) = (r.trim().parse::<u16>(), c.trim().parse::<u16>()) {
                        if row == 0 || row > h || col == 0 || col > w {
                            bad.push((row, col));
                        }
                    }
                }
                i += 2 + rel + 1;
                continue;
            }
        }
        i += 1;
    }
    bad
}

fn plain_frame<'a>(
    applications: &'a Vec<Application>,
    commands: &'a [CommandEntry],
    w: u16,
    h: u16,
) -> Frame<'a> {
    Frame {
        applications,
        resize_preview: None,
        cursor_interaction: None,
        w,
        h,
        pointer: Pointer::new(20, 10),
        scroll_offset: 0,
        tab_scroll: 0,
        path: "",
        typing_input: None,
        commands,
        panel_scroll: 0,
        current_desktop: 1,
        focused_terminal: None,
        selection: None,
        theme: 1,
        full_redraw: false,
        draw_pointer: true,
    }
}

#[test]
fn render_with_new_maximized_terminal_stays_in_bounds() {
    let w: u16 = 100;
    let h: u16 = 30;
    let cwd = ".".to_string();
    let mut applications = vec![
        Application::terminal_window(
            "Terminal 1",
            Window::new(2, 1, w - 5, h - 4, 0),
            cwd.clone(),
            Vec::new(),
            session(),
        ),
        Application::terminal_window(
            "Terminal 2",
            Window::new(10, 4, 50, 18, 0),
            cwd.clone(),
            Vec::new(),
            session(),
        ),
    ];

    assert!(applications[0].terminal.as_ref().unwrap().has_session());
    for i in 0..500 {
        applications[0]
            .terminal
            .as_mut()
            .unwrap()
            .push_shell_line(format!(
                "linha de saída do shell número {i} com conteúdo acentuado çã"
            ));
    }
    applications[0].terminal.as_mut().unwrap().panel_scroll = 120;
    applications[1]
        .terminal
        .as_mut()
        .unwrap()
        .push_shell_line("poucas linhas".to_string());

    let focused_term = Some((0, "", 0));
    let mut buf = String::new();
    let mut grid = ScreenGrid::new(w, h);
    let frame = Frame {
        focused_terminal: focused_term,
        ..plain_frame(&applications, &[], w, h)
    };
    assert!(is_drawable(&frame));
    render(&mut buf, &frame, &mut grid);

    let bad = out_of_bounds_moves(buf.as_bytes(), w, h);
    assert!(bad.is_empty(), "render wrote out of bounds: {bad:?}");
}

#[test]
fn render_with_terminal_near_bottom_stays_in_bounds() {
    let w: u16 = 80;
    let h: u16 = 24;
    let cwd = ".".to_string();
    let applications = vec![Application::terminal_window(
        "Terminal bottom",
        Window::new(2, h - 8, 40, 6, 0),
        cwd.clone(),
        Vec::new(),
        session(),
    )];
    assert!(applications[0].terminal.as_ref().unwrap().has_session());
    let mut buf = String::new();
    let mut grid = ScreenGrid::new(w, h);
    render(&mut buf, &plain_frame(&applications, &[], w, h), &mut grid);
    let bad = out_of_bounds_moves(buf.as_bytes(), w, h);
    assert!(bad.is_empty(), "render wrote out of bounds: {bad:?}");
}

#[test]
fn render_interactive_emulator_stays_in_bounds() {
    let w: u16 = 100;
    let h: u16 = 30;
    let cwd = ".".to_string();

    let mut ts = TerminalState::new(cwd, Vec::new());
    ts.interactive = true;
    let mut em = Terminal::new(80, 24);
    for i in 0..300 {
        em.process(format!("linha de saída {i} com conteúdo acentuado çãẽ\r\n").as_bytes());
    }
    ts.emulator = Some(em);
    ts.panel_scroll = 12;

    let applications = vec![Application {
        title: "App".to_string(),
        display: DisplayMode::Windowed(Window::new(2, 2, 80, 24, 0)),
        desktop: 1,
        is_menu: false,
        terminal: Some(ts),
        menu: None,
        help: None,
    }];

    let mut buf = String::new();
    let mut grid = ScreenGrid::new(w, h);
    let frame = Frame {
        focused_terminal: Some((0, "", 0)),
        ..plain_frame(&applications, &[], w, h)
    };
    render(&mut buf, &frame, &mut grid);
    let bad = out_of_bounds_moves(buf.as_bytes(), w, h);
    assert!(bad.is_empty(), "render wrote out of bounds: {bad:?}");
}

#[test]
fn render_help_window_stays_in_bounds() {
    let w: u16 = 100;
    let h: u16 = 30;
    let cwd = ".".to_string();
    let applications = vec![
        Application::help_window("Help", Window::new(12, 4, 80, 22, 2)),
        Application::terminal_window(
            "T",
            Window::new(2, 2, 30, 8, 0),
            cwd.clone(),
            Vec::new(),
            session(),
        ),
    ];

    let mut buf = String::new();
    let mut grid = ScreenGrid::new(w, h);
    render(&mut buf, &plain_frame(&applications, &[], w, h), &mut grid);
    let bad = out_of_bounds_moves(buf.as_bytes(), w, h);
    assert!(bad.is_empty(), "render wrote out of bounds: {bad:?}");
}

#[test]
fn emit_diff_rewrites_only_changed_rows() {
    let mut prev = ScreenGrid::new(5, 3);
    let mut next = ScreenGrid::new(5, 3);
    for y in 0..3 {
        for x in 0..5 {
            let ch = if (x, y) == (2, 1) { 'Z' } else { 'a' };
            prev.set_cell(x, y, 'a');
            next.set_cell(x, y, ch);
        }
    }

    let mut s = String::new();
    emit_frame_diff(&mut s, &prev, &next, false);

    assert!(
        s.contains("\u{1b}[2;1H"),
        "changed row must be repositioned"
    );
    assert!(s.contains('Z'), "changed cell must be emitted");
    assert!(
        !s.contains("\u{1b}[2J"),
        "no full-screen clear on a normal frame"
    );
    assert_eq!(s.matches('a').count(), 4, "unchanged rows must be skipped");
}

#[test]
fn emit_diff_clears_on_full_redraw_request() {
    let prev = ScreenGrid::new(5, 3);
    let next = ScreenGrid::new(5, 3);
    let mut buf = String::new();
    emit_frame_diff(&mut buf, &prev, &next, true);
    assert!(buf.contains("\u{1b}[2J"));
}

#[test]
fn emit_diff_repaints_style_change_on_same_char() {
    let mut prev = ScreenGrid::new(3, 2);
    let mut next = ScreenGrid::new(3, 2);
    for y in 0..2 {
        for x in 0..3 {
            prev.set_cell(x, y, 'x');
            next.set_cell(x, y, 'x');
        }
    }
    let mut highlighted = Cell {
        ch: 'x',
        ..Cell::default()
    };
    highlighted.style.attrs.set(Attributes::REVERSE, true);
    next.put(1, 0, highlighted);

    let mut s = String::new();
    emit_frame_diff(&mut s, &prev, &next, false);
    assert!(
        s.contains("\u{1b}[1;1H"),
        "row with a style toggle is emitted"
    );
    assert!(s.contains("\u{1b}[7m"), "flagged cell is rendered inverted");
    assert!(
        !s.contains("\u{1b}[2J"),
        "no full clear for an attribute-only change"
    );
}

#[test]
fn a_frame_that_did_not_change_writes_nothing_but_the_cursor() {
    let applications = vec![Application::windowed("Test", Window::new(10, 5, 20, 8, 0))];
    let mut grid = ScreenGrid::new(80, 24);
    let mut first = String::new();
    render(&mut first, &plain_frame(&applications, &[], 80, 24), &mut grid);
    assert!(first.contains("Test"));
    let mut second = String::new();
    render(&mut second, &plain_frame(&applications, &[], 80, 24), &mut grid);
    assert_eq!(second, "\u{1b}[?25l");
}

#[test]
fn what_a_frame_writes_shows_the_frame() {
    let applications = vec![
        Application::windowed("Test", Window::new(10, 5, 20, 8, 0)),
        Application::help_window("Help", Window::new(12, 4, 60, 12, 2)),
    ];
    let mut grid = ScreenGrid::new(80, 24);
    let mut seen = StampWriter::new(ScreenGrid::new(80, 24));
    for step in 0..3 {
        let mut out = String::new();
        let frame = Frame {
            pointer: Pointer::new(20 + step, 10),
            ..plain_frame(&applications, &[], 80, 24)
        };
        render(&mut out, &frame, &mut grid);
        seen.stamp(out.as_bytes());
        for y in 0..24 {
            for x in 0..80 {
                assert_eq!(seen.grid().cell_at(x, y), grid.cell_at(x, y), "at {x}, {y}");
            }
        }
    }
}

#[test]
fn a_selection_is_shown_in_reverse() {
    let applications: Vec<Application> = Vec::new();
    let mut grid = ScreenGrid::new(40, 12);
    let mut out = String::new();
    let frame = Frame {
        selection: Some(BoxSelect { anchor: (3, 4), extent: (4, 6) }),
        draw_pointer: false,
        ..plain_frame(&applications, &[], 40, 12)
    };
    render(&mut out, &frame, &mut grid);
    assert!(grid.style_at(4, 3).attrs.has(Attributes::REVERSE));
    assert!(grid.style_at(6, 4).attrs.has(Attributes::REVERSE));
    assert!(!grid.style_at(7, 4).attrs.has(Attributes::REVERSE));
}

#[test]
fn the_caret_is_in_the_dock_while_typing() {
    let applications: Vec<Application> = Vec::new();
    let frame = Frame {
        typing_input: Some(("ls", 2)),
        ..plain_frame(&applications, &[], 80, 24)
    };
    assert_eq!(caret_position(&frame), Some((15, 22)));
    assert_eq!(caret_position(&plain_frame(&applications, &[], 80, 24)), None);
}

#[test]
fn the_pointer_shows_what_it_is_on() {
    let applications = vec![Application::windowed("Test", Window::new(10, 5, 20, 8, 0))];
    let on_start = Frame {
        pointer: Pointer::new(2, 22),
        ..plain_frame(&applications, &[], 80, 24)
    };
    assert_eq!(effective_cursor(&on_start), Some('S'));
    let nowhere = Frame {
        pointer: Pointer::new(50, 2),
        ..plain_frame(&applications, &[], 80, 24)
    };
    assert_eq!(effective_cursor(&nowhere), None);
}

#[test]
fn a_window_off_the_screen_is_not_drawable() {
    let applications = vec![Application::windowed("Far", Window::new(65530, 5, 20, 8, 0))];
    assert!(!is_drawable(&plain_frame(&applications, &[], 80, 24)));
}

#[test]
fn only_resizing_marks_the_frame() {
    let applications = vec![Application::windowed("Test", Window::new(10, 5, 20, 8, 0))];
    let p = Pointer::new(39, 19);
    let mode = Mode::Resizing { app_idx: 0, edit: None };
    assert_eq!(
        compute_render_state(&mode, &applications, &p),
        (Some((0, 30, 15)), Some('┼'))
    );
    assert_eq!(compute_render_state(&Mode::Normal, &applications, &p), (None, None));
    let gone = Mode::Resizing { app_idx: 9, edit: None };
    assert_eq!(compute_render_state(&gone, &applications, &p), (None, None));
}

#[test]
fn the_buttons_of_the_desktops_are_at_the_right() {
    assert_eq!(desktop_at(64, 22, 80, 24), Some(1));
    assert_eq!(desktop_at(63, 22, 80, 24), None);
    assert_eq!(desktop_at(76, 22, 80, 24), Some(4));
    assert_eq!(desktop_at(76, 21, 80, 24), None);
}

#[test]
fn a_thumb_lies_within_its_track() {
    for total in 1..40 {
        for track in 1..20 {
            if track <= total {
                for scroll in 0..total {
                    let (pos, len) = scrollbar_thumb(track, total, track, scroll);
                    assert!(len >= 1 && pos + len <= track);
                }
            }
        }
    }
    assert_eq!(scrollbar_thumb(10, 20, 10, 0), (0, 5));
    assert_eq!(scrollbar_thumb(10, 20, 10, 10), (5, 5));
}

#[test]
fn themes_draw_their_borders() {
    let mut none = String::new();
    draw_desktop(&mut none, 0, 20, 10, "Manto");
    let mut full = String::new();
    draw_desktop(&mut full, 2, 20, 10, "Manto");
    assert!(full.len() > none.len());
}

/// Every cell of `grid` outside the ones that `drawn` names is blank.
fn blank_but(grid: &ScreenGrid, drawn: impl Fn(usize, usize) -> bool) {
    for y in 0..grid.height() {
        for x in 0..grid.width() {
            if !drawn(x, y) {
                assert_eq!(grid.cell_at(x, y), Cell::default());
            }
        }
    }
}

#[test]
fn a_scrollbar_takes_its_column() {
    let mut out = String::new();
    draw_scrollbar(&mut out, 3, 1, 4, 8, 4, 2);
    let grid = stamped(6, 6, &out);
    let (pos, len) = scrollbar_thumb(4, 8, 4, 2);
    for row in 0..4 {
        let thumb = pos <= row && row < pos + len;
        assert_eq!(grid.char_at(3, 1 + row), if thumb { '█' } else { '░' });
    }
    blank_but(&grid, |x, y| x == 3 && (1..=4).contains(&y));
    let mut out = String::new();
    draw_scrollbar(&mut out, 3, 1, 4, 4, 4, 0);
    assert_eq!(out, "");
}

#[test]
fn a_tab_shows_its_characters() {
    for (title, offset) in [("ab", 0), ("a long title", 0), ("a long title", 11)] {
        let mut out = String::new();
        draw_tab(&mut out, 2, 1, 5, title, offset);
        let grid = stamped(7, 8, &out);
        for y in 1..6u16 {
            for x in 2..4u16 {
                let c = tab_char_at(2, 1, 5, title, x, y, offset);
                assert_eq!(grid.char_at(x as usize, y as usize), c);
            }
        }
        blank_but(&grid, |x, y| (2..4).contains(&x) && (1..6).contains(&y));
    }
}

#[test]
fn the_status_bar_takes_the_last_rows() {
    let (w, h) = (50u16, 8u16);
    let mut out = String::new();
    draw_status_bar(&mut out, w, h, "/home", false, 3);
    let grid = stamped(w, h, &out);
    blank_but(&grid, |_, y| y >= 5);
    assert_eq!(grid.box_text(0, 5, 10, 5), "┌── /home ─");
    assert_eq!(grid.box_text(0, 6, 12, 6), "│ Start | .> ".trim_end());
    assert_eq!(grid.char_at(49, 7), '┘');
    for x in 0..w {
        if let Some(d) = desktop_at(x, h - 2, w, h) {
            let first = (0..w).find(|a| desktop_at(*a, h - 2, w, h) == Some(d)).unwrap();
            let label = [' ', char::from(b'0' + d as u8), ' '];
            assert_eq!(grid.char_at(x as usize, 6), label[(x - first) as usize]);
            let style = grid.style_at(x as usize, 6);
            assert_eq!(style.attrs.has(Attributes::REVERSE), d == 3);
        }
    }
}

#[test]
fn a_long_path_stays_in_its_row() {
    let (w, h) = (30u16, 4u16);
    let mut out = String::new();
    draw_status_bar(&mut out, w, h, "/a/path/that/is/longer/than/the/bar", true, 1);
    let grid = stamped(w, h, &out);
    assert_eq!(grid.box_text(0, 1, 9, 1), "├── /a/pat");
    assert_eq!(grid.char_at(29, 1), '┤');
    assert_eq!(grid.char_at(0, 2), '│');
    blank_but(&grid, |_, y| y >= 1);
}

#[test]
fn a_cleared_grid_is_blank_and_begins_in_its_corner() {
    let mut w = StampWriter::new(ScreenGrid::new(6, 3));
    w.stamp(b"\x1b[1;31mabcdef\r\nghi");
    let mut out = String::new();
    clear(&mut out);
    w.stamp(out.as_bytes());
    blank_but(w.grid(), |_, _| false);
    w.stamp("é".as_bytes());
    assert_eq!(w.grid().char_at(0, 0), 'é');
    assert_eq!(w.grid().style_at(0, 0), Style::default());
    blank_but(w.grid(), |x, y| x == 0 && y == 0);
}

//! The terminal emulator.
use manto::terminal_emulator::{Attributes, Cell, Color, Style, Terminal};
use manto::ui::ansi::{
    enter_alt_screen, hide_cursor, leave_alt_screen, move_to, sgr, show_cursor,
};

fn term() -> Terminal {
    Terminal::new(10, 4)
}

fn first_line(t: &Terminal) -> String {
    row(t, 0)
}

fn row(t: &Terminal, abs: usize) -> String {
    t.line_as_text(abs).trim_end().to_string()
}

#[test]
fn plain_text_with_crlf() {
    let mut t = term();
    t.process(b"ab\r\ncd\r\n");
    assert_eq!(first_line(&t), "ab");
    assert_eq!(row(&t, 1), "cd");
    assert_eq!(t.cursor_pos(), (0, 2));
}

#[test]
fn scrollback_accumulates_on_overflow() {
    let mut t = term();
    for i in 0..6 {
        t.process(format!("line{i}\r\n").as_bytes());
    }
    assert_eq!(t.scrollback_len(), 3);
    assert_eq!(t.total_lines(), 7);
    assert_eq!(row(&t, 0), "line0");
    assert_eq!(row(&t, 2), "line2");
    assert_eq!(row(&t, 3), "line3");
    assert_eq!(row(&t, 5), "line5");
}

#[test]
fn sgr_8_16_256_and_truecolor() {
    let mut t = term();
    t.process(b"\x1b[31mred\x1b[0mdefault");
    let red: Color = Color::Indexed(1);
    let row = t.line_at(0);
    assert_eq!(row[0].ch, 'r');
    assert_eq!(row[0].style.fg, red);
    assert_eq!(row[3].ch, 'd');
    assert_eq!(row[3].style.fg, Color::Default);

    let mut t = term();
    t.process(b"\x1b[91mbright\x1b[0m");
    assert_eq!(t.line_at(0)[0].style.fg, Color::Indexed(9));

    let mut t = term();
    t.process(b"\x1b[38;5;201mx\x1b[0m");
    assert_eq!(t.line_at(0)[0].style.fg, Color::Indexed(201));

    let mut t = term();
    t.process(b"\x1b[48;2;10;20;30m \x1b[0m");
    assert_eq!(t.line_at(0)[0].style.bg, Color::Rgb(10, 20, 30));
}

#[test]
fn bold_and_reverse_attributes() {
    let mut t = term();
    t.process(b"\x1b[1;7mX\x1b[0m");
    let c = t.line_at(0)[0];
    assert!(c.style.attrs.has(Attributes::BOLD));
    assert!(c.style.attrs.has(Attributes::REVERSE));
}

#[test]
fn cursor_movement_and_erase() {
    let mut t = term();
    t.process(b"abcdef");
    t.process(b"\x1b[1;3HGH");
    let text: String = (0..6).map(|c| t.line_at(0)[c].ch).collect();
    assert_eq!(text, "abGHef");
    t.process(b"\x1b[1;1H\x1b[K");
    assert_eq!(first_line(&t), "");
}

#[test]
fn character_edit_controls_erase_and_shift() {
    let mut t = term();
    t.process(b"abcdef");
    assert_eq!(first_line(&t), "abcdef");
    t.process(b"\x1b[1;6H\x1b[1X");
    assert_eq!(first_line(&t), "abcde");
    assert_eq!(t.cursor_pos(), (5, 0));
    t.process(b"\x1b[1;1H\x1b[1P");
    assert_eq!(first_line(&t), "bcde");
    t.process(b"\x1b[1;1H\x1b[1@");
    assert_eq!(first_line(&t), " bcde");
    t.process(b"\x1b[1;1H\x1b[2P");
    assert_eq!(first_line(&t), "cde");
}

#[test]
fn erase_display_and_home() {
    let mut t = term();
    t.process(b"abc\r\ndef\r\n");
    t.process(b"\x1b[2J");
    assert_eq!(first_line(&t), "");
    let mut t = term();
    t.process(b"abc\r\ndef");
    t.process(b"\x1b[2J\x1b[H");
    assert_eq!(t.cursor_pos(), (0, 0));
}

#[test]
fn scroll_region_limits_scroll() {
    let mut t = term();
    t.process(b"\x1b[2;3r");
    for i in 0..6 {
        t.process(format!("L{i}\r\n").as_bytes());
    }
    assert_eq!(t.scrollback_len(), 0);
}

#[test]
fn alternate_screen_isolates_content() {
    let mut t = term();
    t.process(b"main\r\n");
    t.process(b"\x1b[?1049h");
    t.process(b"alt-data");
    assert_eq!(row(&t, t.scrollback_len()), "alt-data");
    t.process(b"\x1b[?1049l");
    assert_eq!(first_line(&t), "main");
}

#[test]
fn resize_keeps_content() {
    let mut t = term();
    t.process(b"aaa\r\nbbb\r\nccc\r\n");
    t.resize(10, 4);
    let text: Vec<String> = (0..4).map(|r| row(&t, t.total_lines() - 4 + r)).collect();
    assert!(text.contains(&"bbb".to_string()));
}

#[test]
fn utf8_split_across_chunks() {
    let mut t = term();
    let mut bytes = "café".as_bytes().to_vec();
    let tail = bytes.split_off(4);
    t.process(&bytes);
    t.process(&tail);
    assert_eq!(first_line(&t), "café");
}

#[test]
fn cr_not_lf_keeps_column() {
    let mut t = term();
    t.process(b"abcdef");
    t.process(b"\rXY");
    assert_eq!(first_line(&t), "XYcdef");
    assert_eq!(t.cursor_pos(), (2, 0));
}

#[test]
fn bytes_may_come_in_any_pieces() {
    let bytes = "a\x1b[31mé\x1b[2;3Hx\r\n".as_bytes();
    let mut whole = term();
    whole.process(bytes);
    let mut pieces = term();
    for b in bytes {
        pieces.process(&[*b]);
    }
    for r in 0..4 {
        assert_eq!(whole.line_at(r), pieces.line_at(r));
    }
    assert_eq!(whole.cursor_pos(), pieces.cursor_pos());
}

#[test]
fn the_cursor_can_be_hidden() {
    let mut t = term();
    assert!(t.cursor_visible());
    t.process(b"\x1b[?25l");
    assert!(!t.cursor_visible());
    t.process(b"\x1b[?25h");
    assert!(t.cursor_visible());
}

#[test]
fn a_partial_region_at_the_top_keeps_the_scrollback() {
    let mut t = term();
    t.process(b"\x1b[1;2ra\r\nb\r\nc");
    assert_eq!(t.scrollback_len(), 0);
    assert_eq!(row(&t, 0), "b");
    assert_eq!(row(&t, 1), "c");
}

#[test]
fn a_smaller_terminal_keeps_every_line() {
    let mut t = Terminal::new(4, 4);
    t.process(b"a\r\nb\r\nc\r\nd\x1b[H");
    t.resize(4, 2);
    assert_eq!(t.total_lines(), 4);
    assert_eq!(t.scrollback_len(), 2);
    let text: Vec<String> = (0..4).map(|r| t.line_as_text(r)).collect();
    assert_eq!(text, ["a   ", "b   ", "c   ", "d   "]);
}

#[test]
fn a_wider_terminal_fills_its_lines() {
    let mut t = Terminal::new(3, 2);
    t.process(b"abc\r\ndef\r\nghi");
    t.resize(5, 2);
    assert_eq!(t.total_lines(), 3);
    let text: Vec<String> = (0..3).map(|r| t.line_as_text(r)).collect();
    assert_eq!(text, ["abc  ", "def  ", "ghi  "]);
}

#[test]
fn a_resized_alternate_screen_keeps_the_main_one() {
    let mut t = Terminal::new(6, 3);
    t.process(b"one\r\ntwo\r\nthree");
    t.process(b"\x1b[s\x1b[?1049h");
    t.process(b"alt");
    t.resize(8, 3);
    assert_eq!(row(&t, t.scrollback_len()), "alt");
    t.process(b"\x1b[?1049l");
    assert_eq!(row(&t, t.scrollback_len()), "one");
    assert_eq!(row(&t, t.scrollback_len() + 2), "three");
}

#[test]
fn the_alternate_screen_leaves_the_scrollback() {
    let mut t = term();
    t.process(b"1\r\n2\r\n3\r\n4\r\n5");
    assert_eq!(t.scrollback_len(), 1);
    t.process(b"\x1b[?1049h");
    t.process(b"a\r\nb\r\nc\r\nd\r\ne\r\nf");
    assert_eq!(t.scrollback_len(), 1);
    assert_eq!(row(&t, 0), "1");
    t.process(b"\x1b[?1049l");
    assert_eq!(row(&t, 1), "2");
}

#[test]
fn the_cursor_stays_on_the_grid() {
    let mut t = Terminal::new(1, 0);
    assert_eq!((t.cols(), t.rows()), (2, 2));
    let far = [
        "\x1b[99;99H",
        "\x1b[50C",
        "\x1b[50B",
        "\t\t\t",
        "abcdef",
        "\n\n\n",
        "\x1b[99d\x1b[99G",
        "\x1b[s\x1b[H\x1b[u",
        "\x1b[?1049h\x1b[9;9H\x1b[?1049l",
    ];
    for bytes in far {
        t.process(bytes.as_bytes());
        let (x, y) = t.cursor_pos();
        assert!(x < t.cols() && y < t.rows());
        assert_eq!(t.total_lines(), t.scrollback_len() + 2);
        for i in 0..t.total_lines() {
            assert_eq!(t.line_at(i).len(), 2);
        }
    }
}

#[test]
fn move_to_takes_the_cursor_to_a_cell() {
    let mut t = term();
    t.process(b"abc");
    let before = t.line_as_text(0);
    for (x, y) in [(0, 0), (9, 3), (4, 2)] {
        let mut out = String::new();
        move_to(&mut out, x, y);
        t.process(out.as_bytes());
        assert_eq!(t.cursor_pos(), (x, y));
    }
    assert_eq!(t.line_as_text(0), before);
    assert_eq!(t.line_as_text(2).trim_end(), "");
}

fn style(flags: &[u16]) -> Style {
    let mut s = Style::default();
    for flag in flags {
        s.attrs.set(*flag, true);
    }
    s
}

#[test]
fn sgr_leads_from_any_style_to_any_style() {
    let mut painted = style(&[Attributes::ITALIC, Attributes::REVERSE]);
    painted.fg = Color::Indexed(200);
    painted.bg = Color::Rgb(1, 2, 3);
    let styles = [
        Style::default(),
        style(&[Attributes::BOLD]),
        style(&[Attributes::DIM]),
        style(&[Attributes::BOLD, Attributes::DIM]),
        painted,
    ];
    for prev in &styles {
        for next in &styles {
            let mut t = term();
            let mut out = String::new();
            sgr(&mut out, None, prev);
            sgr(&mut out, Some(prev), next);
            t.process(out.as_bytes());
            assert_eq!(t.cursor_pos(), (0, 0));
            t.process(b"x");
            assert_eq!(t.line_at(0)[0].ch, 'x');
            assert_eq!(t.line_at(0)[0].style, *next);
        }
    }
}

#[test]
fn sgr_between_weights_ends_both_first() {
    let mut out = String::new();
    sgr(&mut out, Some(&style(&[Attributes::DIM])), &style(&[Attributes::BOLD]));
    assert_eq!(out, "\x1b[22m\x1b[1m");
    let mut out = String::new();
    let both = style(&[Attributes::BOLD, Attributes::DIM]);
    sgr(&mut out, Some(&both), &style(&[Attributes::DIM]));
    assert_eq!(out, "\x1b[22m\x1b[2m");
    let mut out = String::new();
    sgr(&mut out, Some(&Style::default()), &Style::default());
    assert_eq!(out, "");
}

/// The lines of a terminal.
fn lines(t: &Terminal) -> Vec<String> {
    (0..t.total_lines()).map(|i| t.line_as_text(i).trim_end().to_string()).collect()
}

#[test]
fn a_smaller_alternate_screen_keeps_the_main_rows() {
    let mut t = Terminal::new(6, 4);
    t.process(b"a\r\nb\r\nc\r\nd\r\ne");
    assert_eq!(t.scrollback_len(), 1);
    t.process(b"\x1b[?1049hw\r\nx\r\ny\r\nz");
    t.resize(6, 2);
    assert_eq!(t.cursor_pos(), (1, 1));
    assert_eq!(lines(&t), ["a", "b", "c", "y", "z"]);
    t.process(b"\x1b[?1049l");
    assert_eq!(lines(&t), ["a", "b", "c", "d", "e"]);
}

#[test]
fn a_larger_alternate_screen_keeps_the_main_rows() {
    let mut t = Terminal::new(6, 2);
    t.process(b"a\r\nb\r\nc\r\nd");
    assert_eq!(t.scrollback_len(), 2);
    t.process(b"\x1b[?1049hy\r\nz");
    t.resize(6, 3);
    assert_eq!(t.cursor_pos(), (1, 1));
    assert_eq!(lines(&t), ["a", "y", "z", ""]);
    t.process(b"\x1b[?1049l");
    assert_eq!(lines(&t), ["a", "b", "c", "d"]);
}

fn written(write: impl Fn(&mut String)) -> Vec<u8> {
    let mut out = String::new();
    write(&mut out);
    out.into_bytes()
}

#[test]
fn the_cursor_is_hidden_and_shown_by_what_is_written() {
    let mut t = term();
    t.process(b"1\r\n2\r\n3\r\n4\r\n5x");
    let before = (lines(&t), t.cursor_pos(), t.scrollback_len());
    t.process(&written(hide_cursor));
    assert!(!t.cursor_visible());
    assert_eq!((lines(&t), t.cursor_pos(), t.scrollback_len()), before);
    t.process(&written(show_cursor));
    assert!(t.cursor_visible());
    assert_eq!((lines(&t), t.cursor_pos(), t.scrollback_len()), before);
}

#[test]
fn the_alternate_screen_is_blank_and_leaves_no_trace() {
    let mut t = term();
    t.process(b"1\r\n2\r\n3\r\n4\r\n5x\x1b[?25l\x1b[31m");
    let before = lines(&t);
    t.process(&written(enter_alt_screen));
    for i in t.scrollback_len()..t.total_lines() {
        assert!(t.line_at(i).iter().all(|c| *c == Cell::default()));
    }
    assert_eq!(t.cursor_pos(), (0, 0));
    assert!(t.cursor_visible());
    assert_eq!(t.scrollback_len(), 1);
    t.process(b"alt\r\n\n\n\n\nmore");
    let shown = lines(&t);
    let at = t.cursor_pos();
    t.process(&written(enter_alt_screen));
    assert_eq!(lines(&t), shown);
    assert_eq!(t.cursor_pos(), at);
    t.process(&written(leave_alt_screen));
    assert_eq!(lines(&t), before);
    t.process(&written(leave_alt_screen));
    assert_eq!(lines(&t), before);
}

//! The inside of a terminal window: the history of commands, the output of a
//! shell, or the grid of an interactive program.
use vstd::prelude::*;
use vstd::string::*;
use crate::cmd::{entries, CommandEntry, EntryModel};
use crate::num::{max_len, min_len};
use crate::terminal_emulator::{plain_style, Attributes, Cell, Style, TermModel, Terminal};
use crate::text::{chars_of, push_chars, push_repeated, repeated, texts};
use crate::ui::ansi::{move_text, move_to, sgr, sgr_codes, sgr_texts};
use crate::ui::panel::{
    all_rows, blocks_of, build_blocks, content_width, max_nat, push_padded, put_padded, shown_rows,
    slice_line, sliced, terminal_content_width, total_rows, visible_rows,
};
use crate::ui::window::{column, put, put_column, put_text, Window};
use crate::ui::{
    draw_scrollbar, left_over, scrollbar_drawn, terminal_input_prefix, TERMINAL_PREFIX_LEN,
};

verus! {

/// The first `n` of the rows, one below the other from `(x, y)` on, each cut to
/// `width` characters from column `from` on.
pub open spec fn text_rows(
    t: Seq<char>,
    x: int,
    y: int,
    rows: Seq<Seq<char>>,
    n: int,
    from: int,
    width: int,
) -> Seq<char>
    decreases n,
{
    if n <= 0 {
        t
    } else {
        let t = text_rows(t, x, y, rows, n - 1, from, width);
        put_padded(t + move_text(x, y + n - 1), sliced(rows[n - 1], from, width), width)
    }
}

/// The rows `from..to` below `y` left blank.
pub open spec fn blank_rows(t: Seq<char>, x: int, y: int, from: int, to: int, width: int) -> Seq<
    char,
> {
    column(t, x, y, from, to, repeated(' ', width))
}

fn draw_blank_rows(out: &mut String, x: u16, y: u16, from: u16, to: u16, width: usize)
    requires
        x < 0xffff,
        y + to <= 0xffff,
    ensures
        final(out)@ == blank_rows(
            old(out)@,
            x as int,
            y as int,
            from as int,
            to as int,
            width as int,
        ),
{
    let mut blank = String::new();
    push_repeated(&mut blank, ' ', width);
    assert(blank@ =~= repeated(' ', width as int));
    put_column(out, x, y, from, to, blank.as_str());
}

fn draw_text_rows(
    out: &mut String,
    x: u16,
    y: u16,
    lines: &[String],
    start: usize,
    n: usize,
    from: usize,
    width: usize,
)
    requires
        x < 0xffff,
        start + n <= lines@.len(),
        y + n <= 0xffff,
    ensures
        final(out)@ == text_rows(
            old(out)@,
            x as int,
            y as int,
            texts(lines@).subrange(start as int, start + n),
            n as int,
            from as int,
            width as int,
        ),
{
    let ghost rows = texts(lines@).subrange(start as int, start + n);
    let len: usize = lines.len();
    let mut i: usize = 0;
    while i < n
        invariant
            i <= n,
            len == lines@.len(),
            x < 0xffff,
            start + n <= lines@.len(),
            y + n <= 0xffff,
            rows == texts(lines@).subrange(start as int, start + n),
            out@ == text_rows(
                old(out)@,
                x as int,
                y as int,
                rows,
                i as int,
                from as int,
                width as int,
            ),
        decreases n - i,
    {
        assert(rows[i as int] == lines@[start + i]@);
        move_to(out, x, y + i as u16);
        let display = slice_line(lines[start + i].as_str(), from, width);
        push_padded(out, &display, width);
        i = i + 1;
    }
}

// ── The history of commands ──────────────────────────────────────────────────

/// The rows of the history that a window shows, in `area` rows.
pub open spec fn history_rows(
    c: Seq<EntryModel>,
    width: int,
    area: int,
    panel_scroll: int,
) -> Seq<Seq<char>> {
    let blocks = blocks_of(c, width);
    let most = left_over(all_rows(blocks).len() as int, area);
    if c.len() == 0 {
        Seq::empty()
    } else {
        shown_rows(
            blocks,
            area,
            if panel_scroll < most {
                panel_scroll
            } else {
                most
            },
        )
    }
}

/// The screen with the history of commands, the path and the prompt in a window.
pub open spec fn history_drawn(
    t: Seq<char>,
    win: Window,
    path: Seq<char>,
    c: Seq<EntryModel>,
    panel_scroll: int,
) -> Seq<char> {
    let (x, y) = (win.position_x as int, win.position_y as int);
    let inner = win.inner_w();
    let width = max_nat(content_width(path, c), inner as nat) as int;
    let bar: int = if width > inner {
        1
    } else {
        0
    };
    let area = win.height - 4 - bar;
    let scroll_x = if win.scroll_x < width - inner {
        win.scroll_x as int
    } else {
        width - inner
    };
    let rows = history_rows(c, width, area, panel_scroll);
    if win.height < 5 {
        t
    } else {
        let t = text_rows(t, x + 1, y + 1, rows, rows.len() as int, scroll_x, inner);
        let t = blank_rows(t, x + 1, y + 1, rows.len() as int, area, inner);
        let t = put(t, x, y + win.height - 3 - bar, "├"@);
        let t = if path.len() == 0 {
            t + repeated('─', inner)
        } else {
            let label = sliced("── "@ + path + " "@, scroll_x, inner);
            t + label + repeated('─', inner - label.len())
        };
        let t = t + "┤"@;
        put(t, x + 1, y + win.height - 2 - bar, terminal_input_prefix()) + repeated(
            ' ',
            inner - TERMINAL_PREFIX_LEN,
        )
    }
}

/// Draws the history of commands in a window, with the path and the prompt below.
pub fn draw_terminal_content(
    out: &mut String,
    win: &Window,
    path: &str,
    commands: &[CommandEntry],
    panel_scroll: usize,
)
    requires
        win.height >= 5 ==> win.fits() && win.width >= 2,
    ensures
        final(out)@ == history_drawn(
            old(out)@,
            *win,
            path@,
            entries(commands@),
            panel_scroll as int,
        ),
{
    if win.height < 5 {
        return;
    }
    let lx: u16 = win.position_x;
    let ty: u16 = win.position_y;
    let inner: usize = win.visible_w();
    let width: usize = max_len(terminal_content_width(path, commands), inner);
    let bar: u16 = if width > inner {
        1
    } else {
        0
    };
    let area: u16 = win.height - 4 - bar;
    let scroll_x: usize = min_len(win.scroll_x as usize, width - inner);
    proof {
        crate::ui::panel::lemma_content_width(path@, entries(commands@));
    }
    let rows: Vec<String> = if commands.len() == 0 {
        Vec::new()
    } else {
        let blocks = build_blocks(commands, width);
        let most: usize = total_rows(&blocks).saturating_sub(area as usize);
        visible_rows(&blocks, area as usize, min_len(panel_scroll, most))
    };
    let n: usize = rows.len();
    assert(texts(rows@) =~= history_rows(
        entries(commands@),
        width as int,
        area as int,
        panel_scroll as int,
    ));
    assert(texts(rows@).subrange(0, n as int) =~= texts(rows@));
    draw_text_rows(out, lx + 1, ty + 1, &rows, 0, n, scroll_x, inner);
    draw_blank_rows(out, lx + 1, ty + 1, n as u16, area, inner);
    put_text(out, lx, ty + (win.height - 3 - bar), "├");
    if path.is_empty() {
        push_repeated(out, '─', inner);
    } else {
        let mut label = "── ".to_owned();
        label.append(path);
        label.append(" ");
        let display = slice_line(label.as_str(), scroll_x, inner);
        push_chars(out, &display);
        push_repeated(out, '─', inner - display.len());
    }
    out.append("┤");
    put_text(out, lx + 1, ty + (win.height - 2 - bar), " .> ");
    let pad: usize = inner.saturating_sub(TERMINAL_PREFIX_LEN as usize);
    push_repeated(out, ' ', pad);
    assert(repeated(' ', pad as int) =~= repeated(' ', inner - TERMINAL_PREFIX_LEN));
}

// ── The output of a shell ────────────────────────────────────────────────────

/// The screen with the output of a shell and the prompt in a window. The prompt
/// of a REPL takes the place of the path.
pub open spec fn shell_drawn(
    t: Seq<char>,
    win: Window,
    lines: Seq<Seq<char>>,
    panel_scroll: int,
    repl: Option<Seq<char>>,
) -> Seq<char> {
    let (x, y) = (win.position_x as int, win.position_y as int);
    let inner = win.inner_w();
    let area: int = win.height - (if repl is Some {
        3int
    } else {
        4
    });
    let most = left_over(lines.len() as int, area);
    let scroll = if panel_scroll < most {
        panel_scroll
    } else {
        most
    };
    if win.height < 5 {
        t
    } else {
        let t = if most > 0 {
            let width = left_over(inner, 1);
            let end = lines.len() - scroll;
            let t = text_rows(
                t,
                x + 1,
                y + 1,
                lines.subrange(end - area, end),
                area,
                0,
                width,
            );
            scrollbar_drawn(
                t,
                (x + inner) as u16,
                (y + 1) as u16,
                (y + area) as u16,
                lines.len() as usize,
                area as usize,
                (most - scroll) as usize,
            )
        } else {
            let above = area - lines.len();
            let t = blank_rows(t, x + 1, y + 1, 0, above, inner);
            text_rows(t, x + 1, y + 1 + above, lines, lines.len() as int, 0, inner)
        };
        let t = if repl is None {
            put(t, x, y + win.height - 3, "├"@) + repeated('─', inner) + "┤"@
        } else {
            t
        };
        let prefix = match repl {
            Some(p) => p,
            None => terminal_input_prefix(),
        };
        put(t, x + 1, y + win.height - 2, prefix) + repeated(' ', inner - prefix.len())
    }
}

/// Draws the output of a shell in a window, with the prompt below.
pub fn draw_shell_content(
    out: &mut String,
    win: &Window,
    lines: &[String],
    panel_scroll: usize,
    repl: Option<&str>,
)
    requires
        win.height >= 5 ==> win.fits() && win.width >= 2,
    ensures
        final(out)@ == shell_drawn(
            old(out)@,
            *win,
            texts(lines@),
            panel_scroll as int,
            match repl {
                Some(p) => Some(p@),
                None => None,
            },
        ),
{
    if win.height < 5 {
        return;
    }
    let lx: u16 = win.position_x;
    let ty: u16 = win.position_y;
    let inner: usize = win.visible_w();
    let area: u16 = win.height - (if repl.is_some() {
        3
    } else {
        4
    });
    let total: usize = lines.len();
    let most: usize = total.saturating_sub(area as usize);
    let scroll: usize = min_len(panel_scroll, most);
    if most > 0 {
        let width: usize = inner.saturating_sub(1);
        let end: usize = total - scroll;
        draw_text_rows(out, lx + 1, ty + 1, lines, end - area as usize, area as usize, 0, width);
        draw_scrollbar(
            out,
            lx + inner as u16,
            ty + 1,
            ty + area,
            total,
            area as usize,
            most - scroll,
        );
    } else {
        let above: u16 = area - total as u16;
        draw_blank_rows(out, lx + 1, ty + 1, 0, above, inner);
        assert(texts(lines@).subrange(0, total as int) =~= texts(lines@));
        draw_text_rows(out, lx + 1, ty + 1 + above, lines, 0, total, 0, inner);
    }
    if repl.is_none() {
        put_text(out, lx, ty + (win.height - 3), "├");
        push_repeated(out, '─', inner);
        out.append("┤");
    }
    let prefix: &str = match repl {
        Some(p) => p,
        None => " .> ",
    };
    put_text(out, lx + 1, ty + (win.height - 2), prefix);
    let n: usize = chars_of(prefix).len();
    let pad: usize = inner.saturating_sub(n);
    push_repeated(out, ' ', pad);
    assert(repeated(' ', pad as int) =~= repeated(' ', inner - n));
}

// ── The grid of an interactive program ───────────────────────────────────────

/// The style before cell `n` of a row; nothing is known before the first.
pub open spec fn style_before(line: Seq<Cell>, n: int) -> Option<Style> {
    if n <= 0 {
        None
    } else {
        Some(line[n - 1].style)
    }
}

/// The first `n` cells of a row, each in its style.
pub open spec fn cells_drawn(t: Seq<char>, line: Seq<Cell>, n: int) -> Seq<char>
    decreases n,
{
    if n <= 0 {
        t
    } else {
        let c = line[n - 1];
        (cells_drawn(t, line, n - 1) + sgr_texts(sgr_codes(style_before(line, n - 1), c.style))).push(
            c.ch,
        )
    }
}

/// Appends the first `n` cells of a row, and goes back to the plain style.
pub fn draw_cells(out: &mut String, line: &[Cell], n: usize)
    requires
        n <= line@.len(),
    ensures
        final(out)@ == cells_drawn(old(out)@, line@, n as int) + sgr_texts(
            sgr_codes(style_before(line@, n as int), plain_style()),
        ),
{
    let mut prev: Option<Style> = None;
    let mut i: usize = 0;
    while i < n
        invariant
            i <= n <= line@.len(),
            prev == style_before(line@, i as int),
            out@ == cells_drawn(old(out)@, line@, i as int),
        decreases n - i,
    {
        let cell = line[i];
        match prev {
            Some(p) => sgr(out, Some(&p), &cell.style),
            None => sgr(out, None, &cell.style),
        }
        out.push(cell.ch);
        prev = Some(cell.style);
        i = i + 1;
    }
    match prev {
        Some(p) => sgr(out, Some(&p), &Style::default()),
        None => sgr(out, None, &Style::default()),
    }
}

/// The first `n` rows of a grid, from row `top` of its lines on.
pub open spec fn grid_rows(
    t: Seq<char>,
    x: int,
    y: int,
    m: TermModel,
    top: int,
    n: int,
    cols: int,
    width: int,
) -> Seq<char>
    decreases n,
{
    if n <= 0 {
        t
    } else {
        let t = grid_rows(t, x, y, m, top, n - 1, cols, width) + move_text(x, y + n - 1);
        let line = m.line(top + n - 1);
        cells_drawn(t, line, cols) + sgr_texts(sgr_codes(style_before(line, cols), plain_style()))
            + repeated(' ', width - cols)
    }
}

/// A style that stands out as the cursor.
pub open spec fn cursor_style(s: Style) -> Style {
    Style { attrs: s.attrs.with(Attributes::REVERSE, true).with(Attributes::BOLD, true), ..s }
}

/// The screen with the grid of a terminal in a window.
pub open spec fn grid_drawn(
    t: Seq<char>,
    win: Window,
    m: TermModel,
    panel_scroll: int,
    show_cursor: bool,
) -> Seq<char> {
    let (x, y) = (win.position_x as int, win.position_y as int);
    let (inner, height) = (win.inner_w(), win.inner_h());
    let cols = if m.cols < inner {
        m.cols as int
    } else {
        inner
    };
    let rows = if m.rows < height {
        m.rows as int
    } else {
        height
    };
    let total = m.total_lines();
    let most = total - rows;
    let scroll = if panel_scroll < most {
        panel_scroll
    } else {
        most
    };
    let top = total - rows - scroll;
    let at = m.scrollback.len() + m.cursor.y;
    if win.height < 5 || cols == 0 {
        t
    } else {
        let t = grid_rows(t, x + 1, y + 1, m, top, rows, cols, inner);
        let t = column(t, x + 1, y + 1, rows, height, repeated(' ', inner));
        let t = if show_cursor && m.cursor.visible && m.cursor.x < cols && top <= at < top + rows {
            let cell = m.line(at)[m.cursor.x as int];
            let s = cursor_style(cell.style);
            let t = t + move_text(x + 1 + m.cursor.x, y + 1 + (at - top)) + sgr_texts(
                sgr_codes(None, s),
            );
            t.push(cell.ch) + sgr_texts(sgr_codes(Some(s), plain_style()))
        } else {
            t
        };
        if most > 0 {
            scrollbar_drawn(
                t,
                (x + inner) as u16,
                (y + 1) as u16,
                (y + height) as u16,
                total as usize,
                rows as usize,
                (most - scroll) as usize,
            )
        } else {
            t
        }
    }
}

/// Draws the grid of a terminal in a window, scrolled up by `panel_scroll` rows.
pub fn draw_emulator_content(
    out: &mut String,
    win: &Window,
    term: &Terminal,
    panel_scroll: usize,
    show_cursor: bool,
)
    requires
        term.wf(),
        win.height >= 5 ==> win.fits() && win.width >= 2,
    ensures
        final(out)@ == grid_drawn(old(out)@, *win, term@, panel_scroll as int, show_cursor),
{
    if win.height < 5 {
        return;
    }
    let lx: u16 = win.position_x;
    let ty: u16 = win.position_y;
    let inner: usize = win.visible_w();
    let height: usize = win.visible_h();
    let cols: usize = min_len(term.cols() as usize, inner);
    let rows: usize = min_len(term.rows() as usize, height);
    if cols == 0 {
        return;
    }
    let total: usize = term.total_lines();
    let most: usize = total - rows;
    let scroll: usize = min_len(panel_scroll, most);
    let top: usize = total - rows - scroll;
    let mut i: usize = 0;
    while i < rows
        invariant
            i <= rows <= height,
            top + rows <= total,
            total == term@.total_lines(),
            term.wf(),
            cols <= inner,
            cols <= term@.cols,
            win.fits(),
            win.width > 2,
            lx == win.position_x,
            ty == win.position_y,
            height == win.inner_h(),
            inner == win.inner_w(),
            out@ == grid_rows(
                old(out)@,
                lx + 1,
                ty + 1,
                term@,
                top as int,
                i as int,
                cols as int,
                inner as int,
            ),
        decreases rows - i,
    {
        move_to(out, lx + 1, ty + 1 + i as u16);
        draw_cells(out, term.line_at(top + i), cols);
        push_repeated(out, ' ', inner - cols);
        i = i + 1;
    }
    draw_blank_rows(out, lx + 1, ty + 1, rows as u16, height as u16, inner);
    if show_cursor && term.cursor_visible() {
        let (cx, cy) = term.cursor_pos();
        let at: usize = term.scrollback_len() + cy as usize;
        if (cx as usize) < cols && at >= top && at - top < rows {
            let cell = term.line_at(at)[cx as usize];
            let mut style = cell.style;
            style.attrs.set(Attributes::REVERSE, true);
            style.attrs.set(Attributes::BOLD, true);
            move_to(out, lx + 1 + cx, ty + 1 + (at - top) as u16);
            sgr(out, None, &style);
            out.push(cell.ch);
            sgr(out, Some(&style), &Style::default());
        }
    }
    if most > 0 {
        draw_scrollbar(
            out,
            lx + inner as u16,
            ty + 1,
            ty + height as u16,
            total,
            rows,
            most - scroll,
        );
    }
}

} // verus!

//! What the inside of a terminal window shows on a grid: which line of the program,
//! the shell or the history is in which row.
use vstd::prelude::*;
use vstd::utf8::encode_utf8;
use crate::num::lemma_row_bound;
use crate::terminal_emulator::{blank, lemma_set_has, plain_style, Attributes, Cell, TermModel};
use crate::text::repeated;
use crate::ui::ansi::{move_text, sgr_codes, sgr_texts};
use crate::ui::damage::{
    lemma_attribute_bits, lemma_cell, lemma_cells_prefix, lemma_move, lemma_run_join, ready,
    showable, writable,
};
use crate::ui::panel::{put_padded, sliced};
use crate::ui::screen::StampModel;
use crate::ui::scrollbar::thumb;
use crate::ui::stamped::{
    follows, lemma_put, lemma_scrollbar_shown, lemma_text, lemma_with, printable,
};
use crate::ui::terminal_view::{
    cells_drawn, cursor_style, grid_drawn, grid_rows, shell_drawn, style_before, text_rows,
};
use crate::ui::transitions::lemma_sgr_round_trip;
use crate::ui::window::{column, put, Window};
use crate::ui::{scrollbar_drawn, terminal_input_prefix};

verus! {

/// What text that is written out makes of a grid.
#[verifier::opaque]
pub open spec fn stamped(m: StampModel, t: Seq<char>) -> StampModel {
    m.run(encode_utf8(t))
}

pub(crate) proof fn lemma_stamped_join(m: StampModel, a: Seq<char>, b: Seq<char>)
    ensures
        stamped(m, a + b) == stamped(stamped(m, a), b),
{
    reveal(stamped);
    lemma_run_join(m, a, b);
}

pub(crate) proof fn lemma_stamped_nothing(m: StampModel)
    ensures
        stamped(m, Seq::empty()) == m,
{
    reveal(stamped);
    assert(encode_utf8(Seq::<char>::empty()) =~= Seq::empty());
}

/// Whether writing can begin: between two sequences, in the plain style.
pub open spec fn plain_ready(m: StampModel) -> bool {
    ready(m) && m.style == plain_style()
}

/// Whether a window lies on the grid, with room inside.
pub open spec fn on_screen(m: StampModel, win: Window) -> bool {
    &&& 3 <= win.width && 5 <= win.height
    &&& win.position_x + win.width <= m.grid.w
    &&& win.position_y + win.height <= m.grid.h
}

// ── Boxes of cells ───────────────────────────────────────────────────────────

/// Whether `r` has come from `m` by writing `n` rows of `width` cells from `(x, y)` on,
/// of which the one in row `i` and column `c` is `at(i, c)`.
#[verifier::opaque]
pub open spec fn boxed(
    m: StampModel,
    r: StampModel,
    x: int,
    y: int,
    width: int,
    n: int,
    at: spec_fn(int, int) -> Cell,
) -> bool {
    &&& follows(m, r)
    &&& forall|a: int, b: int|
        #[trigger] r.grid.cell(a, b) == (if y <= b < y + n && x <= a < x + width {
            at(b - y, a - x)
        } else {
            m.grid.cell(a, b)
        })
}

pub(crate) proof fn lemma_boxed_none(m: StampModel, x: int, y: int, width: int, at: spec_fn(int, int) -> Cell)
    requires
        ready(m),
    ensures
        boxed(m, m, x, y, width, 0, at),
{
    reveal(boxed);
}

/// One row more below the others.
pub(crate) proof fn lemma_boxed_row(
    m: StampModel,
    s: StampModel,
    r: StampModel,
    x: int,
    y: int,
    width: int,
    n: int,
    at: spec_fn(int, int) -> Cell,
)
    requires
        0 <= n,
        boxed(m, s, x, y, width, n, at),
        follows(s, r),
        forall|a: int, b: int|
            #[trigger] r.grid.cell(a, b) == (if b == y + n && x <= a < x + width {
                at(n, a - x)
            } else {
                s.grid.cell(a, b)
            }),
    ensures
        boxed(m, r, x, y, width, n + 1, at),
{
    reveal(boxed);
    assert forall|a: int, b: int|
        #[trigger] r.grid.cell(a, b) == (if y <= b < y + n + 1 && x <= a < x + width {
            at(b - y, a - x)
        } else {
            m.grid.cell(a, b)
        }) by {
        assert(s.grid.cell(a, b) == (if y <= b < y + n && x <= a < x + width {
            at(b - y, a - x)
        } else {
            m.grid.cell(a, b)
        }));
    }
}

pub(crate) proof fn lemma_blanks_printable(n: int)
    ensures
        printable(repeated(' ', n)),
{
}

/// A cell of blank text is blank.
pub(crate) proof fn lemma_blank_cell()
    ensures
        blank() == (Cell { ch: ' ', style: plain_style() }),
{
}

// ── Rows of a program ────────────────────────────────────────────────────────

/// The first `n` cells of a line take the cells from the position on.
proof fn lemma_cells_at(m: StampModel, line: Seq<Cell>, n: int)
    requires
        ready(m),
        writable(line),
        0 <= n <= line.len(),
        m.x + n <= m.grid.w,
        m.x < m.grid.w,
        m.y < m.grid.h,
    ensures
        ({
            let r = stamped(m, cells_drawn(Seq::empty(), line, n));
            &&& ready(r)
            &&& r.grid.w == m.grid.w && r.grid.h == m.grid.h
            &&& r.y == m.y
            &&& r.x == (if m.x + n < m.grid.w {
                m.x + n
            } else {
                m.grid.w - 1
            })
            &&& n > 0 ==> r.style == line[n - 1].style
            &&& forall|a: int, b: int|
                #[trigger] r.grid.cell(a, b) == (if b == m.y && m.x <= a < m.x + n {
                    line[a - m.x]
                } else {
                    m.grid.cell(a, b)
                })
        }),
    decreases n,
{
    if n == 0 {
        lemma_stamped_nothing(m);
    } else {
        lemma_cells_at(m, line, n - 1);
        let c = line[n - 1];
        let front = cells_drawn(Seq::empty(), line, n - 1);
        let one = sgr_texts(sgr_codes(style_before(line, n - 1), c.style)) + seq![c.ch];
        assert(cells_drawn(Seq::empty(), line, n) =~= front + one);
        lemma_stamped_join(m, front, one);
        if n > 1 {
            assert(line[n - 2].style.attrs.0 < 256);
        }
        assert(showable(c.ch));
        let s = stamped(m, front);
        lemma_cell(s, style_before(line, n - 1), c);
        lemma_with(s.grid, s.x as int, s.y as int, c);
        reveal(stamped);
        let r = stamped(s, one);
        assert forall|a: int, b: int|
            #[trigger] r.grid.cell(a, b) == (if b == m.y && m.x <= a < m.x + n {
                line[a - m.x]
            } else {
                m.grid.cell(a, b)
            }) by {
            assert(s.grid.cell(a, b) == (if b == m.y && m.x <= a < m.x + n - 1 {
                line[a - m.x]
            } else {
                m.grid.cell(a, b)
            }));
        }
    }
}

/// What column `c` of a row shows: the line as far as `cols`, then blanks.
spec fn line_cell(line: Seq<Cell>, cols: int, c: int) -> Cell {
    if c < cols {
        line[c]
    } else {
        blank()
    }
}

/// A line of a program, and blanks to the width.
proof fn lemma_line_row(m: StampModel, x: int, y: int, line: Seq<Cell>, cols: int, width: int)
    requires
        plain_ready(m),
        writable(line),
        0 < cols <= line.len(),
        cols <= width,
        0 <= x,
        x + width <= m.grid.w,
        0 <= y < m.grid.h,
    ensures
        ({
            let t = cells_drawn(move_text(x, y), line, cols) + sgr_texts(
                sgr_codes(style_before(line, cols), plain_style()),
            ) + repeated(' ', width - cols);
            let r = stamped(m, t);
            &&& follows(m, r)
            &&& forall|a: int, b: int|
                #[trigger] r.grid.cell(a, b) == (if b == y && x <= a < x + width {
                    line_cell(line, cols, a - x)
                } else {
                    m.grid.cell(a, b)
                })
        }),
{
    let go = move_text(x, y);
    let cells = cells_drawn(Seq::empty(), line, cols);
    let reset = sgr_texts(sgr_codes(style_before(line, cols), plain_style()));
    let pad = repeated(' ', width - cols);
    lemma_cells_prefix(go, line, cols);
    lemma_stamped_join(m, go + cells + reset, pad);
    lemma_stamped_join(m, go + cells, reset);
    lemma_stamped_join(m, go, cells);
    let a0 = stamped(m, go);
    assert(ready(a0) && a0.x == x && a0.y == y && a0.grid == m.grid) by {
        reveal(stamped);
        lemma_move(m, x, y);
    }
    lemma_cells_at(a0, line, cols);
    let a1 = stamped(a0, cells);
    assert(line[cols - 1].style.attrs.0 < 256);
    let a2 = stamped(a1, reset);
    assert(ready(a2) && a2.x == a1.x && a2.y == a1.y && a2.grid == a1.grid && a2.style
        == plain_style()) by {
        reveal(stamped);
        lemma_sgr_round_trip(a1, style_before(line, cols), plain_style());
    }
    lemma_blanks_printable(width - cols);
    let a3 = stamped(a2, pad);
    assert(follows(a2, a3) && forall|a: int, b: int|
        #[trigger] a3.grid.cell(a, b) == (if b == a2.y && a2.x <= a < a2.x + pad.len() {
            Cell { ch: pad[a - a2.x], style: a2.style }
        } else {
            a2.grid.cell(a, b)
        })) by {
        reveal(stamped);
        lemma_text(a2, pad);
    }
    lemma_blank_cell();
    assert forall|a: int, b: int|
        #[trigger] a3.grid.cell(a, b) == (if b == y && x <= a < x + width {
            line_cell(line, cols, a - x)
        } else {
            m.grid.cell(a, b)
        }) by {
        assert(a1.grid.cell(a, b) == (if b == y && x <= a < x + cols {
            line[a - x]
        } else {
            m.grid.cell(a, b)
        }));
    }
}

/// What row `i` and column `c` show of a program from line `top` on.
spec fn program_cell(m: TermModel, top: int, cols: int) -> spec_fn(int, int) -> Cell {
    |i: int, c: int| line_cell(m.line(top + i), cols, c)
}

#[verifier::spinoff_prover]
#[verifier::rlimit(50)]
proof fn lemma_grid_rows_behind(
    t: Seq<char>,
    x: int,
    y: int,
    m: TermModel,
    top: int,
    n: int,
    cols: int,
    width: int,
)
    ensures
        grid_rows(t, x, y, m, top, n, cols, width) == t + grid_rows(
            Seq::empty(),
            x,
            y,
            m,
            top,
            n,
            cols,
            width,
        ),
    decreases n,
{
    if n <= 0 {
        assert(t + Seq::empty() =~= t);
    } else {
        lemma_grid_rows_behind(t, x, y, m, top, n - 1, cols, width);
        let line = m.line(top + n - 1);
        let s = grid_rows(Seq::empty(), x, y, m, top, n - 1, cols, width) + move_text(x, y + n - 1);
        lemma_cells_prefix(s, line, cols);
        lemma_cells_prefix(t + s, line, cols);
        assert(grid_rows(t, x, y, m, top, n - 1, cols, width) + move_text(x, y + n - 1) =~= t + s);
        assert(grid_rows(t, x, y, m, top, n, cols, width) =~= t + grid_rows(
            Seq::empty(),
            x,
            y,
            m,
            top,
            n,
            cols,
            width,
        ));
    }
}

/// The rows of a program, one below the other.
proof fn lemma_grid_rows(
    m: StampModel,
    x: int,
    y: int,
    term: TermModel,
    top: int,
    n: int,
    cols: int,
    width: int,
)
    requires
        plain_ready(m),
        0 < cols <= width,
        0 <= x,
        x + width <= m.grid.w,
        0 <= y,
        0 <= n,
        y + n <= m.grid.h,
        forall|i: int| top <= i < top + n ==> writable(#[trigger] term.line(i)),
        forall|i: int| top <= i < top + n ==> (#[trigger] term.line(i)).len() >= cols,
    ensures
        boxed(
            m,
            stamped(m, grid_rows(Seq::empty(), x, y, term, top, n, cols, width)),
            x,
            y,
            width,
            n,
            program_cell(term, top, cols),
        ),
    decreases n,
{
    let at = program_cell(term, top, cols);
    if n == 0 {
        lemma_stamped_nothing(m);
        lemma_boxed_none(m, x, y, width, at);
    } else {
        lemma_grid_rows(m, x, y, term, top, n - 1, cols, width);
        let front = grid_rows(Seq::empty(), x, y, term, top, n - 1, cols, width);
        let s = stamped(m, front);
        assert(plain_ready(s) && s.grid.w == m.grid.w && s.grid.h == m.grid.h) by {
            reveal(boxed);
        }
        let line = term.line(top + n - 1);
        lemma_line_row(s, x, y + n - 1, line, cols, width);
        let one = cells_drawn(move_text(x, y + n - 1), line, cols) + sgr_texts(
            sgr_codes(style_before(line, cols), plain_style()),
        ) + repeated(' ', width - cols);
        lemma_cells_prefix(front + move_text(x, y + n - 1), line, cols);
        lemma_cells_prefix(move_text(x, y + n - 1), line, cols);
        assert(grid_rows(Seq::empty(), x, y, term, top, n, cols, width) =~= front + one);
        lemma_stamped_join(m, front, one);
        lemma_boxed_row(m, s, stamped(s, one), x, y, width, n - 1, at);
    }
}

/// Rows that are left blank.
pub(crate) proof fn lemma_blank_rows(m: StampModel, x: int, y: int, from: int, to: int, width: int)
    requires
        plain_ready(m),
        0 < width,
        0 <= x,
        x + width <= m.grid.w,
        0 <= y,
        0 <= from <= to,
        y + to <= m.grid.h,
    ensures
        ({
            let r = stamped(m, column(Seq::empty(), x, y, from, to, repeated(' ', width)));
            boxed(m, r, x, y + from, width, to - from, |i: int, c: int| blank())
        }),
    decreases to - from,
{
    let s = repeated(' ', width);
    let at = |i: int, c: int| blank();
    if to == from {
        lemma_stamped_nothing(m);
        lemma_boxed_none(m, x, y + from, width, at);
    } else {
        lemma_blank_rows(m, x, y, from, to - 1, width);
        let front = column(Seq::empty(), x, y, from, to - 1, s);
        let one = move_text(x, y + to - 1) + s;
        assert(column(Seq::empty(), x, y, from, to, s) =~= front + one);
        lemma_stamped_join(m, front, one);
        let b = stamped(m, front);
        assert(plain_ready(b) && b.grid.w == m.grid.w && b.grid.h == m.grid.h) by {
            reveal(boxed);
        }
        lemma_blanks_printable(width);
        lemma_blank_cell();
        assert(follows(b, stamped(b, one)) && forall|p: int, q: int|
            #[trigger] stamped(b, one).grid.cell(p, q) == (if q == y + to - 1 && x <= p < x
                + s.len() {
                Cell { ch: s[p - x], style: b.style }
            } else {
                b.grid.cell(p, q)
            })) by {
            reveal(stamped);
            lemma_put(b, x, y + to - 1, s);
        }
        lemma_boxed_row(m, b, stamped(b, one), x, y + from, width, to - 1 - from, at);
    }
}

pub(crate) proof fn lemma_column_from(t: Seq<char>, x: int, y: int, from: int, to: int, s: Seq<char>)
    ensures
        column(t, x, y, from, to, s) == t + column(Seq::empty(), x, y, from, to, s),
    decreases to - from,
{
    if to <= from {
        assert(t + Seq::empty() =~= t);
    } else {
        lemma_column_from(t, x, y, from, to - 1, s);
        assert(column(t, x, y, from, to, s) =~= t + column(Seq::empty(), x, y, from, to, s));
    }
}

// ── The grid of a program ────────────────────────────────────────────────────

/// Every line of a terminal can be written.
pub open spec fn all_writable(term: TermModel) -> bool {
    forall|i: int|
        0 <= i < term.scrollback.len() + term.rows ==> writable(#[trigger] term.line(i))
}

/// The smaller of two numbers.
pub open spec fn smaller(a: int, b: int) -> int {
    if a < b {
        a
    } else {
        b
    }
}

proof fn lemma_lines_wide(term: TermModel)
    requires
        term.wf(),
    ensures
        forall|i: int|
            0 <= i < term.scrollback.len() + term.rows ==> (#[trigger] term.line(i)).len()
                == term.cols,
{
    assert forall|i: int| 0 <= i < term.scrollback.len() + term.rows implies (#[trigger] term.line(
        i,
    )).len() == term.cols by {
        if i >= term.scrollback.len() {
            let r = i - term.scrollback.len();
            lemma_row_bound(r, term.rows as int, term.cols as int);
            assert(term.rows * term.cols == term.cols * term.rows) by (nonlinear_arith);
            assert((r + 1) * term.cols == r * term.cols + term.cols) by (nonlinear_arith);
        }
    }
}

/// The cell of the cursor is written over in a style that stands out.
proof fn lemma_cursor_cell(m: StampModel, x: int, y: int, c: Cell)
    requires
        plain_ready(m),
        0 <= x < m.grid.w,
        0 <= y < m.grid.h,
        showable(c.ch),
        c.style.attrs.0 < 256,
    ensures
        ({
            let s = cursor_style(c.style);
            let t = (move_text(x, y) + sgr_texts(sgr_codes(None, s))).push(c.ch) + sgr_texts(
                sgr_codes(Some(s), plain_style()),
            );
            let r = stamped(m, t);
            &&& follows(m, r)
            &&& forall|a: int, b: int|
                #[trigger] r.grid.cell(a, b) == (if a == x && b == y {
                    Cell { ch: c.ch, style: s }
                } else {
                    m.grid.cell(a, b)
                })
        }),
{
    let s = cursor_style(c.style);
    let d = Cell { ch: c.ch, style: s };
    let go = move_text(x, y);
    let one = sgr_texts(sgr_codes(None, s)) + seq![c.ch];
    let reset = sgr_texts(sgr_codes(Some(s), plain_style()));
    let t = (go + sgr_texts(sgr_codes(None, s))).push(c.ch) + reset;
    assert(t =~= go + one + reset);
    lemma_stamped_join(m, go + one, reset);
    lemma_stamped_join(m, go, one);
    lemma_attribute_bits(c.style.attrs, Attributes::REVERSE, true);
    lemma_attribute_bits(c.style.attrs.with(Attributes::REVERSE, true), Attributes::BOLD, true);
    reveal(stamped);
    lemma_move(m, x, y);
    let a0 = stamped(m, go);
    lemma_cell(a0, None, d);
    lemma_with(m.grid, x, y, d);
    let a1 = stamped(a0, one);
    lemma_sgr_round_trip(a1, Some(s), plain_style());
}

/// The text of the cursor, where it is shown.
spec fn cursor_text(win: Window, term: TermModel, top: int, rows: int, cols: int, on: bool) -> Seq<
    char,
> {
    let at = term.scrollback.len() + term.cursor.y;
    if on && term.cursor.visible && term.cursor.x < cols && top <= at < top + rows {
        let cell = term.line(at)[term.cursor.x as int];
        let s = cursor_style(cell.style);
        (move_text(
            win.position_x + 1 + term.cursor.x,
            win.position_y + 1 + (at - top),
        ) + sgr_texts(sgr_codes(None, s))).push(cell.ch) + sgr_texts(
            sgr_codes(Some(s), plain_style()),
        )
    } else {
        Seq::empty()
    }
}

/// The text of the scrollbar, where there is one.
spec fn bar_text(win: Window, total: int, rows: int, scroll: int) -> Seq<char> {
    if total > rows {
        scrollbar_drawn(
            Seq::empty(),
            (win.position_x + win.inner_w()) as u16,
            (win.position_y + 1) as u16,
            (win.position_y + win.inner_h()) as u16,
            total as usize,
            rows as usize,
            (total - rows - scroll) as usize,
        )
    } else {
        Seq::empty()
    }
}

pub(crate) proof fn lemma_bar_behind(
    t: Seq<char>,
    x: u16,
    top: u16,
    bot: u16,
    total: usize,
    visible: usize,
    scroll: usize,
)
    ensures
        scrollbar_drawn(t, x, top, bot, total, visible, scroll) == t + scrollbar_drawn(
            Seq::empty(),
            x,
            top,
            bot,
            total,
            visible,
            scroll,
        ),
{
    if total <= visible || bot < top {
        assert(t + Seq::empty() =~= t);
    } else {
        let n = bot - top + 1;
        let (pos, len) = thumb(n as usize, total, visible, scroll);
        let track = column(Seq::empty(), x as int, top as int, 0, n, "░"@);
        lemma_column_from(t, x as int, top as int, 0, n, "░"@);
        lemma_column_from(t + track, x as int, top + pos, 0, len as int, "█"@);
        lemma_column_from(track, x as int, top + pos, 0, len as int, "█"@);
        assert(scrollbar_drawn(t, x, top, bot, total, visible, scroll) =~= t + scrollbar_drawn(
            Seq::empty(),
            x,
            top,
            bot,
            total,
            visible,
            scroll,
        ));
    }
}

/// What a window with a program is written as: its rows, the blank rows below them,
/// the cursor and the scrollbar.
#[verifier::spinoff_prover]
#[verifier::rlimit(50)]
proof fn lemma_program_text(win: Window, term: TermModel, panel_scroll: int, on: bool)
    requires
        win.height >= 5,
        win.width >= 3,
        term.wf(),
    ensures
        ({
            let (x, y) = (win.position_x as int, win.position_y as int);
            let rows = smaller(term.rows as int, win.inner_h());
            let cols = smaller(term.cols as int, win.inner_w());
            let total = term.scrollback.len() + term.rows;
            let scroll = smaller(panel_scroll, total - rows);
            let top = total - rows - scroll;
            grid_drawn(Seq::empty(), win, term, panel_scroll, on) == grid_rows(
                Seq::empty(),
                x + 1,
                y + 1,
                term,
                top,
                rows,
                cols,
                win.inner_w(),
            ) + column(
                Seq::empty(),
                x + 1,
                y + 1,
                rows,
                win.inner_h(),
                repeated(' ', win.inner_w()),
            ) + cursor_text(win, term, top, rows, cols, on) + bar_text(win, total, rows, scroll)
        }),
{
    let (x, y) = (win.position_x as int, win.position_y as int);
    let (inner, height) = (win.inner_w(), win.inner_h());
    let rows = smaller(term.rows as int, height);
    let cols = smaller(term.cols as int, inner);
    let total = term.scrollback.len() + term.rows;
    let scroll = smaller(panel_scroll, total - rows);
    let top = total - rows - scroll;
    let a = grid_rows(Seq::empty(), x + 1, y + 1, term, top, rows, cols, inner);
    let b = column(Seq::empty(), x + 1, y + 1, rows, height, repeated(' ', inner));
    lemma_column_from(a, x + 1, y + 1, rows, height, repeated(' ', inner));
    let ab = column(a, x + 1, y + 1, rows, height, repeated(' ', inner));
    assert(ab == a + b);
    let c = cursor_text(win, term, top, rows, cols, on);
    let at = term.scrollback.len() + term.cursor.y;
    let abc = if on && term.cursor.visible && term.cursor.x < cols && top <= at < top + rows {
        let cell = term.line(at)[term.cursor.x as int];
        let s = cursor_style(cell.style);
        (ab + move_text(x + 1 + term.cursor.x, y + 1 + (at - top)) + sgr_texts(
            sgr_codes(None, s),
        )).push(cell.ch) + sgr_texts(sgr_codes(Some(s), plain_style()))
    } else {
        ab
    };
    assert(abc =~= ab + c);
    if total > rows {
        lemma_bar_behind(
            abc,
            (x + inner) as u16,
            (y + 1) as u16,
            (y + height) as u16,
            total as usize,
            rows as usize,
            (total - rows - scroll) as usize,
        );
    } else {
        assert(abc + Seq::empty() =~= abc);
    }
}

/// Whether the cursor of a program is shown in row `i` and column `c` of a window that
/// begins with line `top`.
pub open spec fn cursor_in(term: TermModel, top: int, i: int, c: int) -> bool {
    term.cursor.visible && c == term.cursor.x && top + i == term.scrollback.len() + term.cursor.y
}

/// A window with a program shows `rows` of its lines, in order: those that end
/// `panel_scroll` lines before the last, or the first where there are not so many.
/// The cursor stands out, where it is on; the last column has the scrollbar, where there
/// are more lines than rows. Nothing outside the window changes.
#[verifier::spinoff_prover]
#[verifier::rlimit(40)]
pub proof fn lemma_program_shown(
    m: StampModel,
    win: Window,
    term: TermModel,
    panel_scroll: int,
    on: bool,
)
    requires
        plain_ready(m),
        on_screen(m, win),
        term.wf(),
        all_writable(term),
        panel_scroll >= 0,
    ensures
        ({
            let r = stamped(m, grid_drawn(Seq::empty(), win, term, panel_scroll, on));
            let (x, y) = (win.position_x as int, win.position_y as int);
            let rows = smaller(term.rows as int, win.height - 2);
            let cols = smaller(term.cols as int, win.width - 2);
            let total = term.scrollback.len() + term.rows;
            let last = total - smaller(panel_scroll, total - rows);
            &&& follows(m, r)
            &&& forall|i: int, c: int|
                0 <= i < win.height - 2 && 0 <= c < win.width - 2 && (total == rows || c
                    < win.width - 3) ==> (#[trigger] r.grid.cell(x + 1 + c, y + 1 + i)) == (if i
                    >= rows || c >= cols {
                    blank()
                } else {
                    let cell = term.line(last - rows + i)[c];
                    if on && cursor_in(term, last - rows, i, c) {
                        Cell { ch: cell.ch, style: cursor_style(cell.style) }
                    } else {
                        cell
                    }
                })
            &&& forall|a: int, b: int|
                !(x < a < x + win.width - 1 && y < b < y + win.height - 1)
                    ==> (#[trigger] r.grid.cell(a, b)) == m.grid.cell(a, b)
        }),
{
    let (x, y) = (win.position_x as int, win.position_y as int);
    let (inner, height) = (win.inner_w(), win.inner_h());
    let rows = smaller(term.rows as int, height);
    let cols = smaller(term.cols as int, inner);
    let total = term.scrollback.len() + term.rows;
    let scroll = smaller(panel_scroll, total - rows);
    let top = total - rows - scroll;
    let t1 = grid_rows(Seq::empty(), x + 1, y + 1, term, top, rows, cols, inner);
    let t2 = column(Seq::empty(), x + 1, y + 1, rows, height, repeated(' ', inner));
    let t3 = cursor_text(win, term, top, rows, cols, on);
    let t4 = bar_text(win, total, rows, scroll);
    lemma_program_text(win, term, panel_scroll, on);
    lemma_stamped_join(m, t1 + t2 + t3, t4);
    lemma_stamped_join(m, t1 + t2, t3);
    lemma_stamped_join(m, t1, t2);
    lemma_lines_wide(term);
    lemma_grid_rows(m, x + 1, y + 1, term, top, rows, cols, inner);
    let a1 = stamped(m, t1);
    assert(plain_ready(a1) && a1.grid.w == m.grid.w && a1.grid.h == m.grid.h) by {
        reveal(boxed);
    }
    lemma_blank_rows(a1, x + 1, y + 1, rows, height, inner);
    let a2 = stamped(a1, t2);
    assert(plain_ready(a2) && a2.grid.w == m.grid.w && a2.grid.h == m.grid.h) by {
        reveal(boxed);
    }
    assert forall|a: int, b: int|
        #[trigger] a2.grid.cell(a, b) == (if x < a < x + 1 + inner && y < b < y + 1 + height {
            if b - y - 1 < rows {
                line_cell(term.line(top + (b - y - 1)), cols, a - x - 1)
            } else {
                blank()
            }
        } else {
            m.grid.cell(a, b)
        }) by {
        reveal(boxed);
        assert(a1.grid.cell(a, b) == (if y + 1 <= b < y + 1 + rows && x + 1 <= a < x + 1 + inner {
            program_cell(term, top, cols)(b - (y + 1), a - (x + 1))
        } else {
            m.grid.cell(a, b)
        }));
    }
    let a3 = stamped(a2, t3);
    let at = term.scrollback.len() + term.cursor.y;
    let shows = on && term.cursor.visible && term.cursor.x < cols && top <= at < top + rows;
    if shows {
        let line = term.line(at);
        assert(writable(line));
        let cell = line[term.cursor.x as int];
        assert(showable(cell.ch) && cell.style.attrs.0 < 256);
        lemma_cursor_cell(a2, x + 1 + term.cursor.x, y + 1 + (at - top), cell);
    } else {
        lemma_stamped_nothing(a2);
    }
    assert(plain_ready(a3) && a3.grid.w == m.grid.w && a3.grid.h == m.grid.h);
    let a4 = stamped(a3, t4);
    if total > rows {
        reveal(stamped);
        lemma_scrollbar_shown(
            a3,
            (x + inner) as u16,
            (y + 1) as u16,
            (y + height) as u16,
            total as usize,
            rows as usize,
            (total - rows - scroll) as usize,
        );
    } else {
        lemma_stamped_nothing(a3);
    }
}

/// A window that is as large as the terminal inside shows the live screen, where it is
/// not scrolled, and each row one line further back for every line that it is scrolled
/// up. The scrollbar takes the last column, where there are lines above.
pub proof fn lemma_live_screen_shown(
    m: StampModel,
    win: Window,
    term: TermModel,
    panel_scroll: int,
)
    requires
        plain_ready(m),
        on_screen(m, win),
        term.wf(),
        all_writable(term),
        win.width - 2 == term.cols,
        win.height - 2 == term.rows,
        0 <= panel_scroll <= term.scrollback.len(),
    ensures
        ({
            let r = stamped(m, grid_drawn(Seq::empty(), win, term, panel_scroll, false));
            let (x, y) = (win.position_x as int, win.position_y as int);
            forall|i: int, c: int|
                0 <= i < term.rows && 0 <= c < term.cols && (term.scrollback.len() == 0 || c
                    < term.cols - 1) ==> #[trigger] r.grid.cell(x + 1 + c, y + 1 + i)
                    == term.line(term.scrollback.len() - panel_scroll + i)[c]
        }),
{
    lemma_program_shown(m, win, term, panel_scroll, false);
}

/// Scrolled up by one line more, each row shows what the row above it showed.
pub proof fn lemma_one_line_further_back(
    m: StampModel,
    win: Window,
    term: TermModel,
    k: int,
    i: int,
    c: int,
)
    requires
        plain_ready(m),
        on_screen(m, win),
        term.wf(),
        all_writable(term),
        0 <= k,
        k + smaller(term.rows as int, win.height - 2) < term.scrollback.len() + term.rows,
        0 < i < smaller(term.rows as int, win.height - 2),
        0 <= c < win.width - 3,
    ensures
        ({
            let r = stamped(m, grid_drawn(Seq::empty(), win, term, k, false));
            let s = stamped(m, grid_drawn(Seq::empty(), win, term, k + 1, false));
            let (x, y) = (win.position_x as int, win.position_y as int);
            s.grid.cell(x + 1 + c, y + 1 + i) == r.grid.cell(x + 1 + c, y + 1 + (i - 1))
        }),
{
    lemma_program_shown(m, win, term, k, false);
    lemma_program_shown(m, win, term, k + 1, false);
}

/// The cursor is shown at its row and column of the live screen: the character there,
/// reversed and bold.
pub proof fn lemma_cursor_shown(m: StampModel, win: Window, term: TermModel)
    requires
        plain_ready(m),
        on_screen(m, win),
        term.wf(),
        term.on_grid(),
        all_writable(term),
        term.cursor.visible,
        win.width - 3 >= term.cols,
        win.height - 2 >= term.rows,
    ensures
        ({
            let r = stamped(m, grid_drawn(Seq::empty(), win, term, 0, true));
            let cell = r.grid.cell(
                win.position_x + 1 + term.cursor.x,
                win.position_y + 1 + term.cursor.y,
            );
            &&& cell.ch == term.line(term.scrollback.len() + term.cursor.y)[term.cursor.x as int].ch
            &&& cell.style.attrs.holds(Attributes::REVERSE)
            &&& cell.style.attrs.holds(Attributes::BOLD)
        }),
{
    lemma_program_shown(m, win, term, 0, true);
    let cell = term.line(term.scrollback.len() + term.cursor.y)[term.cursor.x as int];
    assert(Attributes::REVERSE & Attributes::BOLD == 0 && Attributes::BOLD & Attributes::REVERSE
        == 0) by (bit_vector);
    lemma_set_has(cell.style.attrs, Attributes::REVERSE, true, Attributes::BOLD);
    lemma_set_has(
        cell.style.attrs.with(Attributes::REVERSE, true),
        Attributes::BOLD,
        true,
        Attributes::REVERSE,
    );
}

// ── The output of a shell ────────────────────────────────────────────────────

/// What column `c` of a row shows of text: a character, or a blank behind the last.
pub open spec fn text_cell(s: Seq<char>, c: int) -> Cell {
    if 0 <= c < s.len() {
        Cell { ch: s[c], style: plain_style() }
    } else {
        Cell { ch: ' ', style: plain_style() }
    }
}

pub open spec fn row_cell(rows: Seq<Seq<char>>, from: int) -> spec_fn(int, int) -> Cell {
    |i: int, c: int| text_cell(rows[i], from + c)
}

/// A row of text, and blanks to the width.
pub(crate) proof fn lemma_text_row(m: StampModel, x: int, y: int, s: Seq<char>, from: int, width: int)
    requires
        plain_ready(m),
        printable(s),
        0 <= from,
        0 < width,
        0 <= x,
        x + width <= m.grid.w,
        0 <= y < m.grid.h,
    ensures
        ({
            let r = stamped(m, put_padded(move_text(x, y), sliced(s, from, width), width));
            &&& follows(m, r)
            &&& forall|a: int, b: int|
                #[trigger] r.grid.cell(a, b) == (if b == y && x <= a < x + width {
                    text_cell(s, from + (a - x))
                } else {
                    m.grid.cell(a, b)
                })
        }),
{
    let part = sliced(s, from, width);
    let whole = part + repeated(' ', width - part.len());
    assert(put_padded(move_text(x, y), part, width) =~= move_text(x, y) + whole);
    assert(printable(whole)) by {
        assert forall|i: int| 0 <= i < whole.len() implies showable(#[trigger] whole[i]) by {
            if i < part.len() {
                assert(showable(s[from + i]));
            }
        }
    }
    reveal(stamped);
    lemma_put(m, x, y, whole);
}

pub(crate) proof fn lemma_text_rows_behind(
    t: Seq<char>,
    x: int,
    y: int,
    rows: Seq<Seq<char>>,
    n: int,
    from: int,
    width: int,
)
    ensures
        text_rows(t, x, y, rows, n, from, width) == t + text_rows(
            Seq::empty(),
            x,
            y,
            rows,
            n,
            from,
            width,
        ),
    decreases n,
{
    if n <= 0 {
        assert(t + Seq::empty() =~= t);
    } else {
        lemma_text_rows_behind(t, x, y, rows, n - 1, from, width);
        assert(text_rows(t, x, y, rows, n, from, width) =~= t + text_rows(
            Seq::empty(),
            x,
            y,
            rows,
            n,
            from,
            width,
        ));
    }
}

pub(crate) proof fn lemma_text_rows(
    m: StampModel,
    x: int,
    y: int,
    rows: Seq<Seq<char>>,
    n: int,
    from: int,
    width: int,
)
    requires
        plain_ready(m),
        0 <= from,
        0 < width,
        0 <= x,
        x + width <= m.grid.w,
        0 <= y,
        0 <= n <= rows.len(),
        y + n <= m.grid.h,
        forall|i: int| 0 <= i < n ==> printable(#[trigger] rows[i]),
    ensures
        boxed(
            m,
            stamped(m, text_rows(Seq::empty(), x, y, rows, n, from, width)),
            x,
            y,
            width,
            n,
            row_cell(rows, from),
        ),
    decreases n,
{
    let at = row_cell(rows, from);
    if n == 0 {
        lemma_stamped_nothing(m);
        lemma_boxed_none(m, x, y, width, at);
    } else {
        lemma_text_rows(m, x, y, rows, n - 1, from, width);
        let front = text_rows(Seq::empty(), x, y, rows, n - 1, from, width);
        let s = stamped(m, front);
        assert(plain_ready(s) && s.grid.w == m.grid.w && s.grid.h == m.grid.h) by {
            reveal(boxed);
        }
        lemma_text_row(s, x, y + n - 1, rows[n - 1], from, width);
        let one = put_padded(move_text(x, y + n - 1), sliced(rows[n - 1], from, width), width);
        assert(text_rows(Seq::empty(), x, y, rows, n, from, width) =~= front + one);
        lemma_stamped_join(m, front, one);
        lemma_boxed_row(m, s, stamped(s, one), x, y, width, n - 1, at);
    }
}

/// What is put below the output of a shell.
spec fn shell_foot(win: Window, repl: Option<Seq<char>>) -> Seq<char> {
    let (x, y) = (win.position_x as int, win.position_y as int);
    let inner = win.inner_w();
    let line = if repl is None {
        put(Seq::empty(), x, y + win.height - 3, "├"@) + repeated('─', inner) + "┤"@
    } else {
        Seq::empty()
    };
    let prefix = match repl {
        Some(p) => p,
        None => terminal_input_prefix(),
    };
    put(line, x + 1, y + win.height - 2, prefix) + repeated(' ', inner - prefix.len())
}

/// The line above the prompt and the prompt take the last rows of the window.
#[verifier::spinoff_prover]
#[verifier::rlimit(50)]
proof fn lemma_shell_foot(m: StampModel, win: Window, repl: Option<Seq<char>>)
    requires
        plain_ready(m),
        on_screen(m, win),
        repl is None ==> win.width >= 6,
        repl matches Some(p) ==> printable(p) && p.len() <= win.width - 2,
    ensures
        ({
            let r = stamped(m, shell_foot(win, repl));
            let area = if repl is None {
                win.height - 4
            } else {
                win.height - 3
            };
            &&& follows(m, r)
            &&& forall|a: int, b: int|
                b < win.position_y + 1 + area ==> (#[trigger] r.grid.cell(a, b)) == m.grid.cell(
                    a,
                    b,
                )
            &&& forall|c: int|
                0 <= c < win.width - 2 ==> (#[trigger] r.grid.cell(
                    win.position_x + 1 + c,
                    win.position_y + win.height - 2,
                )) == text_cell(
                    match repl {
                        Some(p) => p,
                        None => seq![' ', '.', '>', ' '],
                    },
                    c,
                )
        }),
{
    let (x, y) = (win.position_x as int, win.position_y as int);
    let inner = win.inner_w();
    reveal_strlit("├");
    reveal_strlit("┤");
    reveal_strlit(" .> ");
    let dash = seq!['├'] + repeated('─', inner) + seq!['┤'];
    let prefix = match repl {
        Some(p) => p,
        None => terminal_input_prefix(),
    };
    assert(terminal_input_prefix() =~= seq![' ', '.', '>', ' ']);
    let line = if repl is None {
        move_text(x, y + win.height - 3) + dash
    } else {
        Seq::empty()
    };
    let last = prefix + repeated(' ', inner - prefix.len());
    assert("├"@ =~= seq!['├']);
    assert("┤"@ =~= seq!['┤']);
    assert(shell_foot(win, repl) =~= line + (move_text(x + 1, y + win.height - 2) + last));
    lemma_stamped_join(m, line, move_text(x + 1, y + win.height - 2) + last);
    let a = stamped(m, line);
    if repl is None {
        reveal(stamped);
        lemma_put(m, x, y + win.height - 3, dash);
    } else {
        lemma_stamped_nothing(m);
    }
    assert(printable(last)) by {
        assert forall|i: int| 0 <= i < last.len() implies showable(#[trigger] last[i]) by {
            if i < prefix.len() {
                assert(last[i] == prefix[i]);
            }
        }
    }
    assert(plain_ready(a) && a.grid.w == m.grid.w && a.grid.h == m.grid.h);
    reveal(stamped);
    lemma_put(a, x + 1, y + win.height - 2, last);
}

/// What is above the prompt of a shell.
spec fn shell_body(win: Window, lines: Seq<Seq<char>>, area: int, scroll: int) -> Seq<char> {
    let (x, y) = (win.position_x as int, win.position_y as int);
    let inner = win.inner_w();
    if lines.len() > area {
        let end = lines.len() - scroll;
        text_rows(
            Seq::empty(),
            x + 1,
            y + 1,
            lines.subrange(end - area, end),
            area,
            0,
            inner - 1,
        ) + scrollbar_drawn(
            Seq::empty(),
            (x + inner) as u16,
            (y + 1) as u16,
            (y + area) as u16,
            lines.len() as usize,
            area as usize,
            (lines.len() - area - scroll) as usize,
        )
    } else {
        let above = area - lines.len();
        column(Seq::empty(), x + 1, y + 1, 0, above, repeated(' ', inner)) + text_rows(
            Seq::empty(),
            x + 1,
            y + 1 + above,
            lines,
            lines.len() as int,
            0,
            inner,
        )
    }
}

#[verifier::spinoff_prover]
#[verifier::rlimit(50)]
proof fn lemma_shell_text(
    win: Window,
    lines: Seq<Seq<char>>,
    panel_scroll: int,
    repl: Option<Seq<char>>,
)
    requires
        win.height >= 5,
        win.width >= 3,
    ensures
        ({
            let area: int = win.height - (if repl is Some {
                3int
            } else {
                4
            });
            let most = if lines.len() > area {
                lines.len() - area
            } else {
                0
            };
            shell_drawn(Seq::empty(), win, lines, panel_scroll, repl) == shell_body(
                win,
                lines,
                area,
                smaller(panel_scroll, most),
            ) + shell_foot(win, repl)
        }),
{
    let (x, y) = (win.position_x as int, win.position_y as int);
    let inner = win.inner_w();
    let area: int = win.height - (if repl is Some {
        3int
    } else {
        4
    });
    let most = if lines.len() > area {
        lines.len() - area
    } else {
        0
    };
    let scroll = smaller(panel_scroll, most);
    let body = shell_body(win, lines, area, scroll);
    if most > 0 {
        let end = lines.len() - scroll;
        let t = text_rows(
            Seq::empty(),
            x + 1,
            y + 1,
            lines.subrange(end - area, end),
            area,
            0,
            inner - 1,
        );
        lemma_bar_behind(
            t,
            (x + inner) as u16,
            (y + 1) as u16,
            (y + area) as u16,
            lines.len() as usize,
            area as usize,
            (most - scroll) as usize,
        );
    } else {
        let above = area - lines.len();
        let t = column(Seq::empty(), x + 1, y + 1, 0, above, repeated(' ', inner));
        lemma_text_rows_behind(t, x + 1, y + 1 + above, lines, lines.len() as int, 0, inner);
    }
    let line = put(Seq::empty(), x, y + win.height - 3, "├"@) + repeated('─', inner) + "┤"@;
    assert(put(body, x, y + win.height - 3, "├"@) + repeated('─', inner) + "┤"@ =~= body + line);
    assert(shell_drawn(Seq::empty(), win, lines, panel_scroll, repl) =~= body + shell_foot(
        win,
        repl,
    ));
}

/// A window with a shell shows its lines in order, the one above the prompt
/// `panel_scroll` lines before the last, or as far back as there are lines to fill the
/// window; lines that do not fill it stand at its foot. The last column has the
/// scrollbar, where there are more lines than rows.
#[verifier::spinoff_prover]
#[verifier::rlimit(40)]
pub proof fn lemma_shell_shown(
    m: StampModel,
    win: Window,
    lines: Seq<Seq<char>>,
    panel_scroll: int,
    repl: Option<Seq<char>>,
)
    requires
        plain_ready(m),
        on_screen(m, win),
        win.width >= 6,
        lines.len() <= usize::MAX,
        forall|i: int| 0 <= i < lines.len() ==> printable(#[trigger] lines[i]),
        repl matches Some(p) ==> printable(p) && p.len() <= win.width - 2,
        panel_scroll >= 0,
    ensures
        ({
            let r = stamped(m, shell_drawn(Seq::empty(), win, lines, panel_scroll, repl));
            let (x, y) = (win.position_x as int, win.position_y as int);
            let area = if repl is None {
                win.height - 4
            } else {
                win.height - 3
            };
            let back = if lines.len() > area {
                smaller(panel_scroll, lines.len() - area)
            } else {
                0
            };
            &&& follows(m, r)
            &&& forall|i: int, c: int|
                0 <= i < area && 0 <= c < win.width - 3 ==> {
                    let j = lines.len() - back - area + i;
                    (#[trigger] r.grid.cell(x + 1 + c, y + 1 + i)) == text_cell(
                        if j >= 0 {
                            lines[j]
                        } else {
                            Seq::empty()
                        },
                        c,
                    )
                }
            &&& forall|c: int|
                0 <= c < win.width - 2 ==> (#[trigger] r.grid.cell(x + 1 + c, y + win.height - 2))
                    == text_cell(
                    match repl {
                        Some(p) => p,
                        None => seq![' ', '.', '>', ' '],
                    },
                    c,
                )
        }),
{
    let (x, y) = (win.position_x as int, win.position_y as int);
    let inner = win.inner_w();
    let area = if repl is None {
        win.height - 4
    } else {
        win.height - 3
    };
    let back = if lines.len() > area {
        smaller(panel_scroll, lines.len() - area)
    } else {
        0
    };
    lemma_shell_text(win, lines, panel_scroll, repl);
    let body = shell_body(win, lines, area, back);
    let foot = shell_foot(win, repl);
    lemma_stamped_join(m, body, foot);
    let b = stamped(m, body);
    let r = stamped(b, foot);
    if lines.len() > area {
        let end = lines.len() - back;
        let part = lines.subrange(end - area, end);
        let t = text_rows(Seq::empty(), x + 1, y + 1, part, area, 0, inner - 1);
        let bar = scrollbar_drawn(
            Seq::empty(),
            (x + inner) as u16,
            (y + 1) as u16,
            (y + area) as u16,
            lines.len() as usize,
            area as usize,
            (lines.len() - area - back) as usize,
        );
        lemma_stamped_join(m, t, bar);
        lemma_text_rows(m, x + 1, y + 1, part, area, 0, inner - 1);
        let a = stamped(m, t);
        reveal(boxed);
        reveal(stamped);
        lemma_scrollbar_shown(
            a,
            (x + inner) as u16,
            (y + 1) as u16,
            (y + area) as u16,
            lines.len() as usize,
            area as usize,
            (lines.len() - area - back) as usize,
        );
        assert forall|i: int, c: int| 0 <= i < area && 0 <= c < win.width - 3 implies (
        #[trigger] b.grid.cell(x + 1 + c, y + 1 + i)) == text_cell(
            lines[lines.len() - back - area + i],
            c,
        ) by {
            assert(a.grid.cell(x + 1 + c, y + 1 + i) == row_cell(part, 0)(i, c));
        }
    } else {
        let above = area - lines.len();
        let t = column(Seq::empty(), x + 1, y + 1, 0, above, repeated(' ', inner));
        let u = text_rows(
            Seq::empty(),
            x + 1,
            y + 1 + above,
            lines,
            lines.len() as int,
            0,
            inner,
        );
        lemma_stamped_join(m, t, u);
        lemma_blank_rows(m, x + 1, y + 1, 0, above, inner);
        let a = stamped(m, t);
        assert(plain_ready(a) && a.grid.w == m.grid.w && a.grid.h == m.grid.h) by {
            reveal(boxed);
        }
        lemma_text_rows(a, x + 1, y + 1 + above, lines, lines.len() as int, 0, inner);
        reveal(boxed);
        lemma_blank_cell();
        assert forall|i: int, c: int| 0 <= i < area && 0 <= c < win.width - 3 implies (
        #[trigger] b.grid.cell(x + 1 + c, y + 1 + i)) == text_cell(
            if i >= above {
                lines[i - above]
            } else {
                Seq::empty()
            },
            c,
        ) by {
            if i >= above {
                assert(b.grid.cell(x + 1 + c, y + 1 + i) == row_cell(lines, 0)(i - above, c));
            } else {
                assert(b.grid.cell(x + 1 + c, y + 1 + i) == a.grid.cell(x + 1 + c, y + 1 + i));
                assert(a.grid.cell(x + 1 + c, y + 1 + i) == blank());
            }
        }
    }
    assert(plain_ready(b) && b.grid.w == m.grid.w && b.grid.h == m.grid.h);
    lemma_shell_foot(b, win, repl);
}

} // verus!

//! What the help, the start menu and the history of commands show on a grid.
use vstd::prelude::*;
use crate::cmd::EntryModel;
use crate::help::{wrapped_rows, HelpModel};
use crate::menu::MenuModel;
use crate::terminal_emulator::{blank, plain_style, Cell};
use crate::text::repeated;
use crate::ui::ansi::move_text;
use crate::ui::damage::{ready, showable};
use crate::ui::help_view::{help_drawn, help_rows};
use crate::ui::inside::{
    boxed, lemma_bar_behind, lemma_blank_cell, lemma_blank_rows, lemma_boxed_none,
    lemma_boxed_row, lemma_column_from, lemma_stamped_join, lemma_stamped_nothing, lemma_text_row,
    lemma_text_rows, on_screen, plain_ready, row_cell, smaller, stamped, text_cell,
};
use crate::ui::menu_view::{entry_text, menu_drawn, menu_rows};
use crate::ui::panel::{
    all_rows, blocks_of, content_width, lemma_shown_fits, max_nat, put_padded, sliced,
};
use crate::ui::screen::StampModel;
use crate::ui::stamped::{
    follows, lemma_code, lemma_put, lemma_scrollbar_shown, printable, reversed,
};
use crate::ui::terminal_view::{history_drawn, history_rows, text_rows};
use crate::ui::window::{column, Window};
use crate::ui::{left_over, scrollbar_drawn, terminal_input_prefix};

verus! {

// ── The help ─────────────────────────────────────────────────────────────────

/// Row `i` of a list, empty behind the last.
pub open spec fn row_or_empty(rows: Seq<Seq<char>>, i: int) -> Seq<char> {
    if 0 <= i < rows.len() {
        rows[i]
    } else {
        Seq::empty()
    }
}

spec fn list_cell(rows: Seq<Seq<char>>, from: int) -> spec_fn(int, int) -> Cell {
    |i: int, c: int| text_cell(row_or_empty(rows, from + i), c)
}

proof fn lemma_help_rows(
    m: StampModel,
    x: int,
    y: int,
    rows: Seq<Seq<char>>,
    from: int,
    n: int,
    width: int,
)
    requires
        plain_ready(m),
        0 <= from,
        0 < width,
        0 <= x,
        x + width <= m.grid.w,
        0 <= y,
        0 <= n,
        y + n <= m.grid.h,
        forall|i: int| 0 <= i < rows.len() ==> printable(#[trigger] rows[i]),
        forall|i: int| 0 <= i < rows.len() ==> (#[trigger] rows[i]).len() <= width,
    ensures
        boxed(
            m,
            stamped(m, help_rows(Seq::empty(), x, y, rows, from, n, width)),
            x,
            y,
            width,
            n,
            list_cell(rows, from),
        ),
    decreases n,
{
    let at = list_cell(rows, from);
    if n == 0 {
        lemma_stamped_nothing(m);
        lemma_boxed_none(m, x, y, width, at);
    } else {
        lemma_help_rows(m, x, y, rows, from, n - 1, width);
        let front = help_rows(Seq::empty(), x, y, rows, from, n - 1, width);
        let s = stamped(m, front);
        assert(plain_ready(s) && s.grid.w == m.grid.w && s.grid.h == m.grid.h) by {
            reveal(boxed);
        }
        let row = row_or_empty(rows, from + n - 1);
        lemma_text_row(s, x, y + n - 1, row, 0, width);
        assert(sliced(row, 0, width) =~= row);
        let one = put_padded(move_text(x, y + n - 1), row, width);
        assert(help_rows(Seq::empty(), x, y, rows, from, n, width) =~= front + one);
        lemma_stamped_join(m, front, one);
        lemma_boxed_row(m, s, stamped(s, one), x, y, width, n - 1, at);
    }
}

/// The help shows its rows in order, from the one that it is scrolled to on, or as far on
/// as there are rows to fill the window. The last column has the scrollbar, where there
/// are more rows than it shows.
pub proof fn lemma_help_shown(m: StampModel, win: Window, h: HelpModel)
    requires
        plain_ready(m),
        on_screen(m, win),
        wrapped_rows(h.lines, win.width - 2).len() <= usize::MAX,
        forall|i: int|
            0 <= i < wrapped_rows(h.lines, win.width - 2).len() ==> printable(
                #[trigger] wrapped_rows(h.lines, win.width - 2)[i],
            ),
        forall|i: int|
            0 <= i < wrapped_rows(h.lines, win.width - 2).len() ==> (#[trigger] wrapped_rows(
                h.lines,
                win.width - 2,
            )[i]).len() <= win.width - 2,
    ensures
        ({
            let r = stamped(m, help_drawn(Seq::empty(), win, h));
            let (x, y) = (win.position_x as int, win.position_y as int);
            let rows = wrapped_rows(h.lines, win.width - 2);
            let most = if rows.len() > win.height - 2 {
                rows.len() - (win.height - 2)
            } else {
                0
            };
            &&& follows(m, r)
            &&& forall|i: int, c: int|
                0 <= i < win.height - 2 && 0 <= c < win.width - 3 ==> (#[trigger] r.grid.cell(
                    x + 1 + c,
                    y + 1 + i,
                )) == text_cell(row_or_empty(rows, smaller(h.scroll as int, most) + i), c)
        }),
{
    let (x, y) = (win.position_x as int, win.position_y as int);
    let (inner, height) = (win.inner_w(), win.inner_h());
    let rows = wrapped_rows(h.lines, inner);
    let most = if rows.len() > height {
        rows.len() - height
    } else {
        0
    };
    let scroll = smaller(h.scroll as int, most);
    let t = help_rows(Seq::empty(), x + 1, y + 1, rows, scroll, height, inner);
    lemma_help_rows(m, x + 1, y + 1, rows, scroll, height, inner);
    let a = stamped(m, t);
    let r = stamped(m, help_drawn(Seq::empty(), win, h));
    if most > 0 {
        let bar = scrollbar_drawn(
            Seq::empty(),
            (x + inner) as u16,
            (y + 1) as u16,
            (y + height) as u16,
            rows.len() as usize,
            height as usize,
            scroll as usize,
        );
        lemma_bar_behind(
            t,
            (x + inner) as u16,
            (y + 1) as u16,
            (y + height) as u16,
            rows.len() as usize,
            height as usize,
            scroll as usize,
        );
        lemma_stamped_join(m, t, bar);
        reveal(boxed);
        reveal(stamped);
        lemma_scrollbar_shown(
            a,
            (x + inner) as u16,
            (y + 1) as u16,
            (y + height) as u16,
            rows.len() as usize,
            height as usize,
            scroll as usize,
        );
    } else {
        reveal(boxed);
    }
    assert forall|i: int, c: int| 0 <= i < win.height - 2 && 0 <= c < win.width - 3 implies (
    #[trigger] r.grid.cell(x + 1 + c, y + 1 + i)) == text_cell(
        row_or_empty(rows, scroll + i),
        c,
    ) by {
        assert(a.grid.cell(x + 1 + c, y + 1 + i) == list_cell(rows, scroll)(i, c));
    }
}

// ── The start menu ───────────────────────────────────────────────────────────

/// What column `c` of a row of the menu shows: an arrow before the entry that is selected,
/// which is reversed, and the label two columns behind.
pub open spec fn entry_cell(label: Seq<char>, selected: bool, c: int) -> Cell {
    Cell {
        ch: if c == 0 && selected {
            '▶'
        } else if 2 <= c < 2 + label.len() {
            label[c - 2]
        } else {
            ' '
        },
        style: if selected {
            reversed()
        } else {
            plain_style()
        },
    }
}

spec fn menu_cell(m: MenuModel) -> spec_fn(int, int) -> Cell {
    |i: int, c: int|
        if m.scroll + i < m.items.len() {
            entry_cell(m.items[m.scroll + i].label, m.scroll + i == m.selected, c)
        } else {
            text_cell(Seq::empty(), c)
        }
}

/// One row of the menu.
spec fn menu_row(x: int, y: int, m: MenuModel, i: int, width: int) -> Seq<char> {
    if i < m.items.len() {
        let text = entry_text(m.items[i].label, i == m.selected, width);
        if i == m.selected {
            put_padded(move_text(x, y) + "\u{1b}[7m"@, text, width) + "\u{1b}[0m"@
        } else {
            put_padded(move_text(x, y), text, width)
        }
    } else {
        move_text(x, y) + repeated(' ', width)
    }
}

proof fn lemma_menu_row(s: StampModel, x: int, y: int, m: MenuModel, i: int, width: int)
    requires
        plain_ready(s),
        2 < width,
        0 <= x,
        x + width <= s.grid.w,
        0 <= y < s.grid.h,
        0 <= i,
        i < m.items.len() ==> printable(m.items[i].label) && m.items[i].label.len() + 2 <= width,
    ensures
        ({
            let r = stamped(s, menu_row(x, y, m, i, width));
            &&& follows(s, r)
            &&& forall|a: int, b: int|
                #[trigger] r.grid.cell(a, b) == (if b == y && x <= a < x + width {
                    if i < m.items.len() {
                        entry_cell(m.items[i].label, i == m.selected, a - x)
                    } else {
                        text_cell(Seq::empty(), a - x)
                    }
                } else {
                    s.grid.cell(a, b)
                })
        }),
{
    let go = move_text(x, y);
    if i < m.items.len() {
        let label = m.items[i].label;
        let sel = i == m.selected;
        let text = entry_text(label, sel, width);
        let whole = text + repeated(' ', width - text.len());
        assert(text.len() == label.len() + 2);
        assert(printable(whole)) by {
            assert forall|k: int| 0 <= k < whole.len() implies showable(#[trigger] whole[k]) by {
                if 2 <= k < text.len() {
                    assert(whole[k] == label[k - 2]);
                }
            }
        }
        assert forall|c: int| 0 <= c < width implies whole[c] == entry_cell(label, sel, c).ch by {}
        if sel {
            let on = "\u{1b}[7m"@;
            let off = "\u{1b}[0m"@;
            assert(menu_row(x, y, m, i, width) =~= go + on + whole + off);
            lemma_stamped_join(s, go + on + whole, off);
            lemma_stamped_join(s, go + on, whole);
            lemma_stamped_join(s, go, on);
            let a0 = stamped(s, go);
            let a1 = stamped(a0, on);
            let a2 = stamped(a1, whole);
            assert(ready(a1) && a1.x == x && a1.y == y && a1.grid == s.grid && a1.style
                == reversed()) by {
                reveal(stamped);
                crate::ui::damage::lemma_move(s, x, y);
                lemma_code(a0, 7);
            }
            assert(follows(a1, a2) && forall|a: int, b: int|
                #[trigger] a2.grid.cell(a, b) == (if b == y && x <= a < x + whole.len() {
                    Cell { ch: whole[a - x], style: reversed() }
                } else {
                    s.grid.cell(a, b)
                })) by {
                reveal(stamped);
                crate::ui::stamped::lemma_text(a1, whole);
            }
            reveal(stamped);
            lemma_code(a2, 0);
        } else {
            assert(menu_row(x, y, m, i, width) =~= go + whole);
            reveal(stamped);
            lemma_put(s, x, y, whole);
        }
    } else {
        reveal(stamped);
        lemma_put(s, x, y, repeated(' ', width));
    }
}

proof fn lemma_menu_rows(s: StampModel, x: int, y: int, m: MenuModel, n: int, width: int)
    requires
        plain_ready(s),
        2 < width,
        0 <= x,
        x + width <= s.grid.w,
        0 <= y,
        0 <= n,
        y + n <= s.grid.h,
        forall|i: int| 0 <= i < m.items.len() ==> printable((#[trigger] m.items[i]).label),
        forall|i: int|
            0 <= i < m.items.len() ==> (#[trigger] m.items[i]).label.len() + 2 <= width,
    ensures
        boxed(
            s,
            stamped(s, menu_rows(Seq::empty(), x, y, m, n, width)),
            x,
            y,
            width,
            n,
            menu_cell(m),
        ),
    decreases n,
{
    let at = menu_cell(m);
    if n == 0 {
        lemma_stamped_nothing(s);
        lemma_boxed_none(s, x, y, width, at);
    } else {
        lemma_menu_rows(s, x, y, m, n - 1, width);
        let front = menu_rows(Seq::empty(), x, y, m, n - 1, width);
        let b = stamped(s, front);
        assert(plain_ready(b) && b.grid.w == s.grid.w && b.grid.h == s.grid.h) by {
            reveal(boxed);
        }
        let i = m.scroll + n - 1;
        if i < m.items.len() {
            assert(printable(m.items[i].label));
        }
        lemma_menu_row(b, x, y + n - 1, m, i, width);
        let one = menu_row(x, y + n - 1, m, i, width);
        assert(menu_rows(Seq::empty(), x, y, m, n, width) =~= front + one);
        lemma_stamped_join(s, front, one);
        lemma_boxed_row(s, b, stamped(b, one), x, y, width, n - 1, at);
    }
}

/// The start menu shows its entries one below the other, from the one that it is scrolled
/// to on. The one that is selected is reversed and has an arrow before it, and no other.
pub proof fn lemma_menu_shown(s: StampModel, win: Window, m: MenuModel)
    requires
        plain_ready(s),
        on_screen(s, win),
        m.items.len() > 0,
        forall|i: int| 0 <= i < m.items.len() ==> printable((#[trigger] m.items[i]).label),
        forall|i: int|
            0 <= i < m.items.len() ==> (#[trigger] m.items[i]).label.len() + 4 <= win.width,
        win.width >= 5,
    ensures
        ({
            let r = stamped(s, menu_drawn(Seq::empty(), win, m));
            let (x, y) = (win.position_x as int, win.position_y as int);
            &&& follows(s, r)
            &&& forall|i: int, c: int|
                0 <= i < win.height - 2 && 0 <= c < win.width - 2 ==> (#[trigger] r.grid.cell(
                    x + 1 + c,
                    y + 1 + i,
                )) == (if m.scroll + i < m.items.len() {
                    entry_cell(m.items[m.scroll + i].label, m.scroll + i == m.selected, c)
                } else {
                    text_cell(Seq::empty(), c)
                })
        }),
{
    let (x, y) = (win.position_x as int, win.position_y as int);
    lemma_menu_rows(s, x + 1, y + 1, m, win.inner_h(), win.inner_w());
    let r = stamped(s, menu_drawn(Seq::empty(), win, m));
    reveal(boxed);
    assert forall|i: int, c: int| 0 <= i < win.height - 2 && 0 <= c < win.width - 2 implies (
    #[trigger] r.grid.cell(x + 1 + c, y + 1 + i)) == menu_cell(m)(i, c) by {}
}

// ── The history of commands ──────────────────────────────────────────────────

/// The line with the path, between the history and the prompt.
spec fn path_line(path: Seq<char>, scroll_x: int, inner: int) -> Seq<char> {
    if path.len() == 0 {
        repeated('─', inner)
    } else {
        let label = sliced("── "@ + path + " "@, scroll_x, inner);
        label + repeated('─', inner - label.len())
    }
}

/// What is below the history.
spec fn history_foot(win: Window, path: Seq<char>, scroll_x: int, bar: int) -> Seq<char> {
    let (x, y) = (win.position_x as int, win.position_y as int);
    let inner = win.inner_w();
    (move_text(x, y + win.height - 3 - bar) + (seq!['├'] + path_line(path, scroll_x, inner) + seq![
        '┤',
    ])) + (move_text(x + 1, y + win.height - 2 - bar) + (terminal_input_prefix() + repeated(
        ' ',
        inner - 4,
    )))
}

proof fn lemma_history_foot(m: StampModel, win: Window, path: Seq<char>, scroll_x: int, bar: int)
    requires
        plain_ready(m),
        on_screen(m, win),
        win.width >= 7,
        0 <= bar <= 1,
        0 <= scroll_x,
        printable(path),
    ensures
        ({
            let r = stamped(m, history_foot(win, path, scroll_x, bar));
            &&& follows(m, r)
            &&& forall|a: int, b: int|
                b < win.position_y + win.height - 3 - bar ==> (#[trigger] r.grid.cell(a, b))
                    == m.grid.cell(a, b)
            &&& forall|c: int|
                0 <= c < win.width - 2 ==> (#[trigger] r.grid.cell(
                    win.position_x + 1 + c,
                    win.position_y + win.height - 2 - bar,
                )) == text_cell(seq![' ', '.', '>', ' '], c)
        }),
{
    let (x, y) = (win.position_x as int, win.position_y as int);
    let inner = win.inner_w();
    reveal_strlit(" .> ");
    reveal_strlit("── ");
    reveal_strlit(" ");
    assert(terminal_input_prefix() =~= seq![' ', '.', '>', ' ']);
    let whole = "── "@ + path + " "@;
    let label = sliced(whole, scroll_x, inner);
    let line = seq!['├'] + path_line(path, scroll_x, inner) + seq!['┤'];
    assert(printable(line)) by {
        assert forall|i: int| 0 <= i < line.len() implies showable(#[trigger] line[i]) by {
            if 1 <= i < line.len() - 1 {
                assert(line[i] == path_line(path, scroll_x, inner)[i - 1]);
                if path.len() > 0 && i - 1 < label.len() {
                    let k = scroll_x + (i - 1);
                    assert(line[i] == whole[k]);
                    if 3 <= k < 3 + path.len() {
                        assert(whole[k] == path[k - 3]);
                    }
                }
            }
        }
    }
    let prompt = terminal_input_prefix() + repeated(' ', inner - 4);
    assert(printable(prompt)) by {
        assert forall|i: int| 0 <= i < prompt.len() implies showable(#[trigger] prompt[i]) by {}
    }
    let p = move_text(x, y + win.height - 3 - bar) + line;
    let q = move_text(x + 1, y + win.height - 2 - bar) + prompt;
    lemma_stamped_join(m, p, q);
    let a = stamped(m, p);
    assert(line.len() == inner + 2);
    assert(follows(m, a) && forall|i: int, j: int|
        #[trigger] a.grid.cell(i, j) == (if j == y + win.height - 3 - bar && x <= i < x
            + line.len() {
            Cell { ch: line[i - x], style: m.style }
        } else {
            m.grid.cell(i, j)
        })) by {
        reveal(stamped);
        lemma_put(m, x, y + win.height - 3 - bar, line);
    }
    reveal(stamped);
    lemma_put(a, x + 1, y + win.height - 2 - bar, prompt);
}

proof fn lemma_history_text(
    win: Window,
    path: Seq<char>,
    c: Seq<EntryModel>,
    panel_scroll: int,
    width: int,
    bar: int,
    scroll_x: int,
)
    requires
        win.height >= 5,
        win.width >= 7,
        width == max_nat(content_width(path, c), win.inner_w() as nat),
        bar == (if width > win.inner_w() {
            1int
        } else {
            0
        }),
        scroll_x == smaller(win.scroll_x as int, width - win.inner_w()),
    ensures
        ({
            let (x, y) = (win.position_x as int, win.position_y as int);
            let inner = win.inner_w();
            let area = win.height - 4 - bar;
            let rows = history_rows(c, width, area, panel_scroll);
            history_drawn(Seq::empty(), win, path, c, panel_scroll) == text_rows(
                Seq::empty(),
                x + 1,
                y + 1,
                rows,
                rows.len() as int,
                scroll_x,
                inner,
            ) + column(Seq::empty(), x + 1, y + 1, rows.len() as int, area, repeated(' ', inner))
                + history_foot(win, path, scroll_x, bar)
        }),
{
    let (x, y) = (win.position_x as int, win.position_y as int);
    let inner = win.inner_w();
    let area = win.height - 4 - bar;
    let rows = history_rows(c, width, area, panel_scroll);
    let t1 = text_rows(Seq::empty(), x + 1, y + 1, rows, rows.len() as int, scroll_x, inner);
    lemma_column_from(t1, x + 1, y + 1, rows.len() as int, area, repeated(' ', inner));
    let t2 = column(t1, x + 1, y + 1, rows.len() as int, area, repeated(' ', inner));
    reveal_strlit("├");
    reveal_strlit("┤");
    assert("├"@ =~= seq!['├']);
    assert("┤"@ =~= seq!['┤']);
    assert(history_drawn(Seq::empty(), win, path, c, panel_scroll) =~= t2 + history_foot(
        win,
        path,
        scroll_x,
        bar,
    ));
}

/// A terminal without a session shows the rows of its history from the first row inside
/// its window on, each from the column that it is scrolled to, and blank rows below; then
/// the path and the prompt.
#[verifier::spinoff_prover]
#[verifier::rlimit(50)]
pub proof fn lemma_history_shown(
    m: StampModel,
    win: Window,
    path: Seq<char>,
    c: Seq<EntryModel>,
    panel_scroll: int,
    width: int,
    bar: int,
    scroll_x: int,
)
    requires
        plain_ready(m),
        on_screen(m, win),
        win.width >= 7,
        win.height >= 6,
        printable(path),
        panel_scroll >= 0,
        width == max_nat(content_width(path, c), win.inner_w() as nat),
        bar == (if width > win.inner_w() {
            1int
        } else {
            0
        }),
        scroll_x == smaller(win.scroll_x as int, width - win.inner_w()),
        forall|i: int|
            0 <= i < history_rows(c, width, win.height - 4 - bar, panel_scroll).len() ==> printable(
                #[trigger] history_rows(c, width, win.height - 4 - bar, panel_scroll)[i],
            ),
    ensures
        ({
            let r = stamped(m, history_drawn(Seq::empty(), win, path, c, panel_scroll));
            let (x, y) = (win.position_x as int, win.position_y as int);
            let rows = history_rows(c, width, win.height - 4 - bar, panel_scroll);
            &&& follows(m, r)
            &&& forall|i: int, k: int|
                0 <= i < win.height - 4 - bar && 0 <= k < win.width - 2 ==> (#[trigger] r.grid.cell(
                    x + 1 + k,
                    y + 1 + i,
                )) == text_cell(row_or_empty(rows, i), scroll_x + k)
            &&& forall|k: int|
                0 <= k < win.width - 2 ==> (#[trigger] r.grid.cell(
                    x + 1 + k,
                    y + win.height - 2 - bar,
                )) == text_cell(seq![' ', '.', '>', ' '], k)
        }),
{
    let (x, y) = (win.position_x as int, win.position_y as int);
    let inner = win.inner_w();
    let area = win.height - 4 - bar;
    let rows = history_rows(c, width, area, panel_scroll);
    let n = rows.len() as int;
    if c.len() > 0 {
        let blocks = blocks_of(c, width);
        let most = left_over(all_rows(blocks).len() as int, area);
        lemma_shown_fits(blocks, area, smaller(panel_scroll, most));
    }
    lemma_history_text(win, path, c, panel_scroll, width, bar, scroll_x);
    let t1 = text_rows(Seq::empty(), x + 1, y + 1, rows, n, scroll_x, inner);
    let t2 = column(Seq::empty(), x + 1, y + 1, n, area, repeated(' ', inner));
    let t3 = history_foot(win, path, scroll_x, bar);
    lemma_stamped_join(m, t1 + t2, t3);
    lemma_stamped_join(m, t1, t2);
    lemma_text_rows(m, x + 1, y + 1, rows, n, scroll_x, inner);
    let a1 = stamped(m, t1);
    assert(plain_ready(a1) && a1.grid.w == m.grid.w && a1.grid.h == m.grid.h) by {
        reveal(boxed);
    }
    lemma_blank_rows(a1, x + 1, y + 1, n, area, inner);
    let a2 = stamped(a1, t2);
    assert(plain_ready(a2) && a2.grid.w == m.grid.w && a2.grid.h == m.grid.h) by {
        reveal(boxed);
    }
    lemma_history_foot(a2, win, path, scroll_x, bar);
    lemma_blank_cell();
    assert forall|i: int, k: int| 0 <= i < area && 0 <= k < win.width - 2 implies (
    #[trigger] a2.grid.cell(x + 1 + k, y + 1 + i)) == text_cell(
        row_or_empty(rows, i),
        scroll_x + k,
    ) by {
        reveal(boxed);
        if i < n {
            assert(a2.grid.cell(x + 1 + k, y + 1 + i) == a1.grid.cell(x + 1 + k, y + 1 + i));
            assert(a1.grid.cell(x + 1 + k, y + 1 + i) == row_cell(rows, scroll_x)(i, k));
        } else {
            assert(a2.grid.cell(x + 1 + k, y + 1 + i) == blank());
        }
    }
}

} // verus!

//! What clearing the screen and the drawings of the status bar, a tab and a scrollbar
//! show on a grid.
use vstd::prelude::*;
use vstd::utf8::encode_utf8;
use crate::terminal_emulator::{blank, plain_style, Attributes, Cell, Style};
use crate::text::{dec, digit, repeated};
use crate::ui::ansi::{clear_text, move_text, params_text};
use crate::ui::damage::{
    lemma_char, lemma_clear, lemma_move, lemma_run_join, lemma_two_params, ready, showable,
};
use crate::ui::screen::{GridModel, StampModel};
use crate::ui::scrollbar::thumb;
use crate::ui::transitions::{in_range, lemma_single_code};
use crate::ui::window::{column, put};
use crate::ui::{
    button_at, buttons, left_over, scrollbar_drawn, status_bar_prefix, status_drawn, tab_cell,
    tab_drawn, tab_letter, tab_rows, DESKTOP_AREA_LEN, DESKTOP_COUNT, STATUS_PREFIX_LEN,
};

verus! {

/// Text of which every character takes a cell.
pub open spec fn printable(s: Seq<char>) -> bool {
    forall|i: int| 0 <= i < s.len() ==> showable(#[trigger] s[i])
}

/// Whether `r` has come from `m` by writing cells: the size of the grid is the same,
/// and so is the style that is written in.
pub open spec fn follows(m: StampModel, r: StampModel) -> bool {
    &&& ready(r)
    &&& r.grid.w == m.grid.w
    &&& r.grid.h == m.grid.h
    &&& r.style == m.style
}

// ── Text ─────────────────────────────────────────────────────────────────────

pub(crate) proof fn lemma_with(g: GridModel, x: int, y: int, c: Cell)
    requires
        g.wf(),
        g.inside(x, y),
    ensures
        g.with(x, y, c).wf(),
        forall|a: int, b: int|
            #[trigger] g.with(x, y, c).cell(a, b) == (if a == x && b == y {
                c
            } else {
                g.cell(a, b)
            }),
{
    let n = g.with(x, y, c);
    assert forall|k: int| 0 <= k < n.h implies (#[trigger] n.rows[k]).len() == n.w by {
        assert(g.rows[k].len() == g.w);
    }
    assert forall|a: int, b: int|
        #[trigger] n.cell(a, b) == (if a == x && b == y {
            c
        } else {
            g.cell(a, b)
        }) by {
        if g.inside(a, b) {
            assert(g.rows[b].len() == g.w);
        }
    }
}

/// Text that fits the row takes one cell after another.
pub(crate) proof fn lemma_text(m: StampModel, s: Seq<char>)
    requires
        ready(m),
        printable(s),
        m.x + s.len() <= m.grid.w,
        m.x < m.grid.w,
        m.y < m.grid.h,
    ensures
        ({
            let r = m.run(encode_utf8(s));
            &&& follows(m, r)
            &&& r.y == m.y
            &&& r.x == (if m.x + s.len() < m.grid.w {
                m.x + s.len()
            } else {
                m.grid.w - 1
            })
            &&& forall|a: int, b: int|
                #[trigger] r.grid.cell(a, b) == (if b == m.y && m.x <= a < m.x + s.len() {
                    Cell { ch: s[a - m.x], style: m.style }
                } else {
                    m.grid.cell(a, b)
                })
        }),
    decreases s.len(),
{
    if s.len() == 0 {
        assert(encode_utf8(s) =~= Seq::empty());
    } else {
        let front = s.drop_last();
        assert(printable(front)) by {
            assert forall|i: int| 0 <= i < front.len() implies showable(#[trigger] front[i]) by {
                assert(showable(s[i]));
            }
        }
        lemma_text(m, front);
        let c = s.last();
        assert(s =~= front + seq![c]);
        lemma_run_join(m, front, seq![c]);
        let a = m.run(encode_utf8(front));
        assert(showable(s[s.len() - 1]));
        lemma_char(a, c);
        lemma_with(a.grid, a.x as int, a.y as int, Cell { ch: c, style: a.style });
        let r = a.placed(c);
        assert forall|p: int, q: int|
            #[trigger] r.grid.cell(p, q) == (if q == m.y && m.x <= p < m.x + s.len() {
                Cell { ch: s[p - m.x], style: m.style }
            } else {
                m.grid.cell(p, q)
            }) by {
            assert(a.grid.cell(p, q) == (if q == m.y && m.x <= p < m.x + front.len() {
                Cell { ch: front[p - m.x], style: m.style }
            } else {
                m.grid.cell(p, q)
            }));
        }
    }
}

/// What a row of `w` cells shows of text that begins in its first cell: where the
/// text goes past the row, the last cell shows its last character.
pub open spec fn clipped(s: Seq<char>, w: int) -> Seq<char> {
    if s.len() <= w {
        s
    } else {
        s.take(w - 1).push(s.last())
    }
}

/// Text from the first cell of a row on, as long as it may be.
proof fn lemma_long_text(m: StampModel, s: Seq<char>)
    requires
        ready(m),
        printable(s),
        m.x == 0,
        0 < m.grid.w,
        m.y < m.grid.h,
    ensures
        ({
            let r = m.run(encode_utf8(s));
            let row = clipped(s, m.grid.w as int);
            &&& follows(m, r)
            &&& r.y == m.y
            &&& r.x == (if s.len() < m.grid.w {
                s.len() as int
            } else {
                m.grid.w - 1
            })
            &&& forall|a: int, b: int|
                #[trigger] r.grid.cell(a, b) == (if b == m.y && 0 <= a < row.len() {
                    Cell { ch: row[a], style: m.style }
                } else {
                    m.grid.cell(a, b)
                })
        }),
    decreases s.len(),
{
    if s.len() <= m.grid.w {
        lemma_text(m, s);
    } else {
        let front = s.drop_last();
        assert(printable(front)) by {
            assert forall|i: int| 0 <= i < front.len() implies showable(#[trigger] front[i]) by {
                assert(showable(s[i]));
            }
        }
        lemma_long_text(m, front);
        let c = s.last();
        assert(s =~= front + seq![c]);
        lemma_run_join(m, front, seq![c]);
        let a = m.run(encode_utf8(front));
        assert(showable(s[s.len() - 1]));
        lemma_char(a, c);
        lemma_with(a.grid, a.x as int, a.y as int, Cell { ch: c, style: a.style });
        let r = a.placed(c);
        let w = m.grid.w as int;
        let row = clipped(s, w);
        let before = clipped(front, w);
        assert forall|p: int, q: int|
            #[trigger] r.grid.cell(p, q) == (if q == m.y && 0 <= p < row.len() {
                Cell { ch: row[p], style: m.style }
            } else {
                m.grid.cell(p, q)
            }) by {
            assert(a.grid.cell(p, q) == (if q == m.y && 0 <= p < before.len() {
                Cell { ch: before[p], style: m.style }
            } else {
                m.grid.cell(p, q)
            }));
            if 0 <= p < w - 1 {
                assert(row[p] == s[p] && before[p] == s[p]);
            }
        }
    }
}

/// Text put at a cell takes the cells from there on.
pub(crate) proof fn lemma_put(m: StampModel, x: int, y: int, s: Seq<char>)
    requires
        ready(m),
        printable(s),
        0 <= x < m.grid.w,
        x + s.len() <= m.grid.w,
        0 <= y < m.grid.h,
    ensures
        ({
            let r = m.run(encode_utf8(move_text(x, y) + s));
            &&& follows(m, r)
            &&& r.y == y
            &&& x + s.len() < m.grid.w ==> r.x == x + s.len()
            &&& forall|a: int, b: int|
                #[trigger] r.grid.cell(a, b) == (if b == y && x <= a < x + s.len() {
                    Cell { ch: s[a - x], style: m.style }
                } else {
                    m.grid.cell(a, b)
                })
        }),
{
    lemma_run_join(m, move_text(x, y), s);
    lemma_move(m, x, y);
    lemma_text(m.run(encode_utf8(move_text(x, y))), s);
}

// ── Clearing ─────────────────────────────────────────────────────────────────

/// Written between two sequences and characters, what `clear` writes blanks every
/// cell, and the character that follows takes the cell in the corner, in the plain
/// style.
pub proof fn lemma_clear_shown(m: StampModel, c: char)
    requires
        ready(m),
        showable(c),
    ensures
        ({
            let n = m.run(encode_utf8(clear_text()));
            let r = n.run(encode_utf8(seq![c]));
            &&& ready(n)
            &&& n.grid.w == m.grid.w
            &&& n.grid.h == m.grid.h
            &&& n.style == plain_style()
            &&& n.x == 0
            &&& n.y == 0
            &&& forall|a: int, b: int| #[trigger] n.grid.cell(a, b) == blank()
            &&& forall|a: int, b: int|
                #[trigger] r.grid.cell(a, b) == (if a == 0 && b == 0 {
                    Cell { ch: c, style: plain_style() }
                } else {
                    blank()
                })
        }),
{
    lemma_clear(m);
    let n = m.run(encode_utf8(clear_text()));
    assert forall|a: int, b: int| #[trigger] n.grid.cell(a, b) == blank() by {}
    lemma_char(n, c);
    lemma_with(n.grid, 0, 0, Cell { ch: c, style: plain_style() });
}

// ── Scrollbars ───────────────────────────────────────────────────────────────

pub(crate) proof fn lemma_column_behind(t: Seq<char>, x: int, y: int, n: int, s: Seq<char>)
    ensures
        column(t, x, y, 0, n, s) == t + column(Seq::empty(), x, y, 0, n, s),
    decreases n,
{
    if n <= 0 {
        assert(t + Seq::empty() =~= t);
    } else {
        lemma_column_behind(t, x, y, n - 1, s);
        assert(column(t, x, y, 0, n, s) =~= t + column(Seq::empty(), x, y, 0, n, s));
    }
}

proof fn lemma_column(m: StampModel, x: int, y: int, n: int, c: char)
    requires
        ready(m),
        showable(c),
        0 <= x < m.grid.w,
        0 <= y,
        0 <= n,
        y + n <= m.grid.h,
    ensures
        ({
            let r = m.run(encode_utf8(column(Seq::empty(), x, y, 0, n, seq![c])));
            &&& follows(m, r)
            &&& forall|a: int, b: int|
                #[trigger] r.grid.cell(a, b) == (if a == x && y <= b < y + n {
                    Cell { ch: c, style: m.style }
                } else {
                    m.grid.cell(a, b)
                })
        }),
    decreases n,
{
    let s = seq![c];
    if n == 0 {
        assert(encode_utf8(column(Seq::empty(), x, y, 0, n, s)) =~= Seq::empty());
    } else {
        lemma_column(m, x, y, n - 1, c);
        let front = column(Seq::empty(), x, y, 0, n - 1, s);
        let one = move_text(x, y + n - 1) + s;
        assert(column(Seq::empty(), x, y, 0, n, s) =~= front + one);
        lemma_run_join(m, front, one);
        let a = m.run(encode_utf8(front));
        lemma_put(a, x, y + n - 1, s);
        let r = a.run(encode_utf8(one));
        assert forall|p: int, q: int|
            #[trigger] r.grid.cell(p, q) == (if p == x && y <= q < y + n {
                Cell { ch: c, style: m.style }
            } else {
                m.grid.cell(p, q)
            }) by {
            assert(a.grid.cell(p, q) == (if p == x && y <= q < y + n - 1 {
                Cell { ch: c, style: m.style }
            } else {
                m.grid.cell(p, q)
            }));
        }
    }
}

/// A scrollbar takes its column and nothing else: the thumb where it is, the track
/// in the other rows. Nothing is drawn where everything is visible.
pub proof fn lemma_scrollbar_shown(
    m: StampModel,
    x: u16,
    top: u16,
    bot: u16,
    total: usize,
    visible: usize,
    scroll: usize,
)
    requires
        ready(m),
        total > visible && top <= bot ==> x < m.grid.w && bot < m.grid.h,
    ensures
        ({
            let t = scrollbar_drawn(Seq::empty(), x, top, bot, total, visible, scroll);
            let r = m.run(encode_utf8(t));
            let (pos, len) = thumb((bot - top + 1) as usize, total, visible, scroll);
            &&& total <= visible || bot < top ==> t.len() == 0 && r == m
            &&& total > visible && top <= bot ==> {
                &&& pos + len <= bot - top + 1
                &&& follows(m, r)
                &&& forall|a: int, b: int|
                    #[trigger] r.grid.cell(a, b) == (if a == x && top <= b <= bot {
                        Cell {
                            ch: if top + pos <= b < top + pos + len {
                                '█'
                            } else {
                                '░'
                            },
                            style: m.style,
                        }
                    } else {
                        m.grid.cell(a, b)
                    })
            }
        }),
{
    let t = scrollbar_drawn(Seq::empty(), x, top, bot, total, visible, scroll);
    if total <= visible || bot < top {
        assert(encode_utf8(t) =~= Seq::empty());
    } else {
        let n = bot - top + 1;
        let (pos, len) = thumb(n as usize, total, visible, scroll);
        let available = n - len;
        let most = total - visible;
        assert(scroll * available / most >= 0) by (nonlinear_arith)
            requires
                scroll >= 0,
                available >= 0,
                most > 0,
        ;
        reveal_strlit("░");
        reveal_strlit("█");
        assert("░"@ =~= seq!['░']);
        assert("█"@ =~= seq!['█']);
        let track = column(Seq::empty(), x as int, top as int, 0, n, seq!['░']);
        let mark = column(Seq::empty(), x as int, top + pos, 0, len as int, seq!['█']);
        lemma_column_behind(track, x as int, top + pos, len as int, seq!['█']);
        lemma_run_join(m, track, mark);
        lemma_column(m, x as int, top as int, n, '░');
        let a = m.run(encode_utf8(track));
        lemma_column(a, x as int, top + pos, len as int, '█');
        let r = a.run(encode_utf8(mark));
        assert forall|p: int, q: int|
            #[trigger] r.grid.cell(p, q) == (if p == x && top <= q <= bot {
                Cell {
                    ch: if top + pos <= q < top + pos + len {
                        '█'
                    } else {
                        '░'
                    },
                    style: m.style,
                }
            } else {
                m.grid.cell(p, q)
            }) by {
            assert(a.grid.cell(p, q) == (if p == x && top <= q < top + n {
                Cell { ch: '░', style: m.style }
            } else {
                m.grid.cell(p, q)
            }));
        }
    }
}

// ── Tabs ─────────────────────────────────────────────────────────────────────

proof fn lemma_tab_behind(
    t: Seq<char>,
    x: int,
    y: int,
    n: int,
    title: Seq<char>,
    rows: int,
    offset: int,
)
    ensures
        tab_rows(t, x, y, n, title, rows, offset) == t + tab_rows(
            Seq::empty(),
            x,
            y,
            n,
            title,
            rows,
            offset,
        ),
    decreases n,
{
    if n <= 0 {
        assert(t + Seq::empty() =~= t);
    } else {
        lemma_tab_behind(t, x, y, n - 1, title, rows, offset);
        assert(tab_rows(t, x, y, n, title, rows, offset) =~= t + tab_rows(
            Seq::empty(),
            x,
            y,
            n,
            title,
            rows,
            offset,
        ));
    }
}

proof fn lemma_letter(title: Seq<char>, rows: int, row: int, offset: int)
    requires
        printable(title),
        0 <= row,
        0 <= offset,
        0 <= rows,
    ensures
        showable(tab_letter(title, rows, row, offset)),
{
    reveal_strlit("  ");
    let ring = title + "  "@;
    let at = (offset + row) % (ring.len() as int);
    if title.len() > rows {
        if at < title.len() {
            assert(showable(title[at]));
        }
    } else if row < title.len() {
        assert(showable(title[row]));
    }
}

proof fn lemma_tab_rows(
    m: StampModel,
    x: int,
    y: int,
    n: int,
    title: Seq<char>,
    rows: int,
    offset: int,
)
    requires
        ready(m),
        printable(title),
        0 <= x,
        x + 2 <= m.grid.w,
        0 <= y,
        0 <= n,
        y + n < m.grid.h,
        0 <= rows,
        0 <= offset,
    ensures
        ({
            let r = m.run(encode_utf8(tab_rows(Seq::empty(), x, y, n, title, rows, offset)));
            &&& follows(m, r)
            &&& forall|a: int, b: int|
                #[trigger] r.grid.cell(a, b) == (if x <= a <= x + 1 && y < b <= y + n {
                    Cell {
                        ch: if a == x {
                            '│'
                        } else {
                            tab_letter(title, rows, b - y - 1, offset)
                        },
                        style: m.style,
                    }
                } else {
                    m.grid.cell(a, b)
                })
        }),
    decreases n,
{
    if n == 0 {
        assert(encode_utf8(tab_rows(Seq::empty(), x, y, n, title, rows, offset)) =~= Seq::empty());
    } else {
        lemma_tab_rows(m, x, y, n - 1, title, rows, offset);
        lemma_letter(title, rows, n - 1, offset);
        reveal_strlit("│");
        let front = tab_rows(Seq::empty(), x, y, n - 1, title, rows, offset);
        let s = seq!['│', tab_letter(title, rows, n - 1, offset)];
        let one = move_text(x, y + n) + s;
        assert(tab_rows(Seq::empty(), x, y, n, title, rows, offset) =~= front + one);
        lemma_run_join(m, front, one);
        let a = m.run(encode_utf8(front));
        assert(printable(s));
        lemma_put(a, x, y + n, s);
        let r = a.run(encode_utf8(one));
        assert forall|p: int, q: int|
            #[trigger] r.grid.cell(p, q) == (if x <= p <= x + 1 && y < q <= y + n {
                Cell {
                    ch: if p == x {
                        '│'
                    } else {
                        tab_letter(title, rows, q - y - 1, offset)
                    },
                    style: m.style,
                }
            } else {
                m.grid.cell(p, q)
            }) by {
            assert(a.grid.cell(p, q) == (if x <= p <= x + 1 && y < q <= y + n - 1 {
                Cell {
                    ch: if p == x {
                        '│'
                    } else {
                        tab_letter(title, rows, q - y - 1, offset)
                    },
                    style: m.style,
                }
            } else {
                m.grid.cell(p, q)
            }));
        }
    }
}

/// The text of a tab: its head, its rows and its foot.
proof fn lemma_tab_text(x: u16, y: u16, height: u16, title: Seq<char>, offset: usize)
    ensures
        ({
            let rows = left_over(height as int, 2);
            let head = move_text(x as int, y as int) + "┌─"@;
            let body = tab_rows(Seq::empty(), x as int, y as int, rows, title, rows, offset as int);
            let foot = move_text(x as int, y + height - 1) + "└─"@;
            tab_drawn(Seq::empty(), x, y, height, title, offset) == head + body + foot
        }),
{
    let rows = left_over(height as int, 2);
    let head = move_text(x as int, y as int) + "┌─"@;
    assert(put(Seq::empty(), x as int, y as int, "┌─"@) =~= head);
    lemma_tab_behind(head, x as int, y as int, rows, title, rows, offset as int);
    let body = tab_rows(Seq::empty(), x as int, y as int, rows, title, rows, offset as int);
    let foot = move_text(x as int, y + height - 1) + "└─"@;
    assert(tab_drawn(Seq::empty(), x, y, height, title, offset) =~= head + body + foot);
}

/// A tab on the grid `g`: `a` has its head, `b` its rows too, and `r` all of it.
proof fn lemma_tab_cells(
    g: GridModel,
    a: GridModel,
    b: GridModel,
    r: GridModel,
    style: Style,
    x: u16,
    y: u16,
    height: u16,
    title: Seq<char>,
    offset: usize,
)
    requires
        height >= 2,
        x + 2 <= 0xffff,
        y + height <= 0xffff,
        forall|p: int, q: int|
            #[trigger] a.cell(p, q) == (if q == y && x <= p < x + 2 {
                Cell { ch: "┌─"@[p - x], style }
            } else {
                g.cell(p, q)
            }),
        forall|p: int, q: int|
            #[trigger] b.cell(p, q) == (if x <= p <= x + 1 && y < q <= y + height - 2 {
                Cell {
                    ch: if p == x {
                        '│'
                    } else {
                        tab_letter(title, height - 2, q - y - 1, offset as int)
                    },
                    style,
                }
            } else {
                a.cell(p, q)
            }),
        forall|p: int, q: int|
            #[trigger] r.cell(p, q) == (if q == y + height - 1 && x <= p < x + 2 {
                Cell { ch: "└─"@[p - x], style }
            } else {
                b.cell(p, q)
            }),
    ensures
        forall|p: int, q: int|
            #[trigger] r.cell(p, q) == (if x <= p <= x + 1 && y <= q < y + height {
                Cell { ch: tab_cell(x, y, height, title, p as u16, q as u16, offset), style }
            } else {
                g.cell(p, q)
            }),
{
    reveal_strlit("┌─");
    reveal_strlit("└─");
    assert forall|p: int, q: int|
        #[trigger] r.cell(p, q) == (if x <= p <= x + 1 && y <= q < y + height {
            Cell { ch: tab_cell(x, y, height, title, p as u16, q as u16, offset), style }
        } else {
            g.cell(p, q)
        }) by {
        let in_b = b.cell(p, q);
        let in_a = a.cell(p, q);
    }
}

/// A tab takes its two columns and nothing else, and each cell shows what
/// `tab_char_at` gives for it.
pub proof fn lemma_tab_shown(
    m: StampModel,
    x: u16,
    y: u16,
    height: u16,
    title: Seq<char>,
    offset: usize,
)
    requires
        ready(m),
        printable(title),
        height >= 2,
        x + 2 <= m.grid.w,
        y + height <= m.grid.h,
    ensures
        ({
            let r = m.run(encode_utf8(tab_drawn(Seq::empty(), x, y, height, title, offset)));
            &&& follows(m, r)
            &&& forall|a: int, b: int|
                #[trigger] r.grid.cell(a, b) == (if x <= a <= x + 1 && y <= b < y + height {
                    Cell {
                        ch: tab_cell(x, y, height, title, a as u16, b as u16, offset),
                        style: m.style,
                    }
                } else {
                    m.grid.cell(a, b)
                })
        }),
{
    let rows = left_over(height as int, 2);
    reveal_strlit("┌─");
    reveal_strlit("└─");
    let head = move_text(x as int, y as int) + "┌─"@;
    let body = tab_rows(Seq::empty(), x as int, y as int, rows, title, rows, offset as int);
    let foot = move_text(x as int, y + height - 1) + "└─"@;
    lemma_tab_text(x, y, height, title, offset);
    lemma_run_join(m, head + body, foot);
    lemma_run_join(m, head, body);
    lemma_put(m, x as int, y as int, "┌─"@);
    let a = m.run(encode_utf8(head));
    lemma_tab_rows(a, x as int, y as int, rows, title, rows, offset as int);
    let b = a.run(encode_utf8(body));
    lemma_put(b, x as int, y + height - 1, "└─"@);
    let r = b.run(encode_utf8(foot));
    lemma_tab_cells(m.grid, a.grid, b.grid, r.grid, m.style, x, y, height, title, offset);
}

// ── The status bar ───────────────────────────────────────────────────────────

/// The style of reversed text.
pub open spec fn reversed() -> Style {
    Style { attrs: Attributes(Attributes::REVERSE), ..plain_style() }
}

/// The style of a button.
pub open spec fn button_style(d: int, current: int) -> Style {
    if d == current {
        reversed()
    } else {
        plain_style()
    }
}

/// What the buttons show `k` columns behind where they begin.
pub open spec fn button_cell(k: int, current: int) -> Cell {
    let d = k / 4 + 1;
    if k % 4 == 0 {
        Cell { ch: '|', style: plain_style() }
    } else {
        Cell {
            ch: if k % 4 == 2 {
                digit(d)
            } else {
                ' '
            },
            style: button_style(d, current),
        }
    }
}

pub(crate) proof fn lemma_code(m: StampModel, code: u32)
    requires
        ready(m),
        code == 0 || code == 7,
        m.style == plain_style() || m.style == reversed(),
    ensures
        ({
            let t = if code == 7 {
                "\u{1b}[7m"@
            } else {
                "\u{1b}[0m"@
            };
            let r = m.run(encode_utf8(t));
            &&& ready(r)
            &&& r.grid == m.grid
            &&& r.x == m.x
            &&& r.y == m.y
            &&& r.style == (if code == 7 {
                reversed()
            } else {
                plain_style()
            })
        }),
{
    let t = if code == 7 {
        "\u{1b}[7m"@
    } else {
        "\u{1b}[0m"@
    };
    let p = seq![code];
    reveal_strlit("\u{1b}[7m");
    reveal_strlit("\u{1b}[0m");
    assert(in_range(p));
    assert(params_text(p) == dec(code as nat));
    assert(t =~= seq!['\u{1b}', '['] + params_text(p) + seq!['m']);
    lemma_two_params(m, p, 0x6d);
    lemma_single_code(m.style, code);
    assert(0u16 | 32u16 == 32u16 && 32u16 | 32u16 == 32u16) by (bit_vector);
}

proof fn lemma_buttons_behind(t: Seq<char>, n: int, current: int)
    ensures
        buttons(t, n, current) == t + buttons(Seq::empty(), n, current),
    decreases n,
{
    if n <= 0 {
        assert(t + Seq::empty() =~= t);
    } else {
        lemma_buttons_behind(t, n - 1, current);
        assert(buttons(t, n, current) =~= t + buttons(Seq::empty(), n, current));
    }
}

/// The grid and position after text was written.
#[verifier::opaque]
spec fn after(m: StampModel, t: Seq<char>) -> StampModel {
    m.run(encode_utf8(t))
}

proof fn lemma_after_join(m: StampModel, a: Seq<char>, b: Seq<char>)
    ensures
        after(m, a + b) == after(after(m, a), b),
{
    reveal(after);
    lemma_run_join(m, a, b);
}

proof fn lemma_after_code(m: StampModel, code: u32)
    requires
        ready(m),
        code == 0 || code == 7,
        m.style == plain_style() || m.style == reversed(),
    ensures
        ({
            let r = after(
                m,
                if code == 7 {
                    "\u{1b}[7m"@
                } else {
                    "\u{1b}[0m"@
                },
            );
            &&& ready(r)
            &&& r.grid == m.grid
            &&& r.x == m.x
            &&& r.y == m.y
            &&& r.style == (if code == 7 {
                reversed()
            } else {
                plain_style()
            })
        }),
{
    reveal(after);
    lemma_code(m, code);
}

/// Whether `n` is `g` with `cells` in row `y` from column `x` on.
#[verifier::opaque]
spec fn painted(g: GridModel, n: GridModel, x: int, y: int, cells: Seq<Cell>) -> bool {
    &&& n.wf()
    &&& n.w == g.w
    &&& n.h == g.h
    &&& forall|a: int, b: int|
        #[trigger] n.cell(a, b) == (if b == y && x <= a < x + cells.len() {
            cells[a - x]
        } else {
            g.cell(a, b)
        })
}

/// A character in a style.
spec fn cell_of(ch: char, style: Style) -> Cell {
    Cell { ch, style }
}

/// Text in one style.
spec fn in_style(s: Seq<char>, style: Style) -> Seq<Cell> {
    Seq::new(s.len(), |i: int| cell_of(s[i], style))
}

proof fn lemma_painted_join(
    g: GridModel,
    n: GridModel,
    r: GridModel,
    x: int,
    y: int,
    c: Seq<Cell>,
    d: Seq<Cell>,
)
    requires
        painted(g, n, x, y, c),
        painted(n, r, x + c.len(), y, d),
    ensures
        painted(g, r, x, y, c + d),
{
    reveal(painted);
    assert forall|a: int, b: int|
        #[trigger] r.cell(a, b) == (if b == y && x <= a < x + (c + d).len() {
            (c + d)[a - x]
        } else {
            g.cell(a, b)
        }) by {
        assert(n.cell(a, b) == (if b == y && x <= a < x + c.len() {
            c[a - x]
        } else {
            g.cell(a, b)
        }));
    }
}

proof fn lemma_painted(
    g: GridModel,
    n: GridModel,
    x: int,
    y: int,
    s: Seq<char>,
    style: Style,
)
    requires
        n.wf(),
        n.w == g.w,
        n.h == g.h,
        forall|a: int, b: int|
            #[trigger] n.cell(a, b) == (if b == y && x <= a < x + s.len() {
                Cell { ch: s[a - x], style }
            } else {
                g.cell(a, b)
            }),
    ensures
        painted(g, n, x, y, in_style(s, style)),
{
    reveal(painted);
    let cells = in_style(s, style);
    assert forall|a: int, b: int|
        #[trigger] n.cell(a, b) == (if b == y && x <= a < x + cells.len() {
            cells[a - x]
        } else {
            g.cell(a, b)
        }) by {
        if b == y && x <= a < x + cells.len() {
            assert(cells[a - x] == Cell { ch: s[a - x], style });
        }
    }
}

proof fn lemma_painted_text(m: StampModel, s: Seq<char>)
    requires
        ready(m),
        printable(s),
        m.x + s.len() <= m.grid.w,
        m.x < m.grid.w,
        m.y < m.grid.h,
    ensures
        ({
            let r = after(m, s);
            &&& follows(m, r)
            &&& r.y == m.y
            &&& m.x + s.len() < m.grid.w ==> r.x == m.x + s.len()
            &&& painted(m.grid, r.grid, m.x as int, m.y as int, in_style(s, m.style))
        }),
{
    reveal(after);
    lemma_text(m, s);
    let r = after(m, s);
    lemma_painted(m.grid, r.grid, m.x as int, m.y as int, s, m.style);
}

/// The cells of a button, with the bar before it.
spec fn button_cells(d: int, current: int) -> Seq<Cell> {
    seq![Cell { ch: '|', style: plain_style() }] + in_style(button_text(d), button_style(d, current))
}

/// The text of a button.
spec fn button_text(d: int) -> Seq<char> {
    seq![' ', digit(d), ' ']
}

/// The text of a button, in its style and with the bar before it.
spec fn button_codes(d: int, current: int) -> Seq<char> {
    if d == current {
        "|"@ + ("\u{1b}[7m"@ + (button_text(d) + "\u{1b}[0m"@))
    } else {
        "|"@ + button_text(d)
    }
}

/// One button, with the bar before it.
proof fn lemma_button(m: StampModel, d: int, current: int)
    requires
        ready(m),
        m.style == plain_style(),
        1 <= d <= 4,
        m.x + 4 < m.grid.w,
        m.y < m.grid.h,
    ensures
        ({
            let r = after(m, button_codes(d, current));
            &&& follows(m, r)
            &&& r.y == m.y
            &&& r.x == m.x + 4
            &&& painted(m.grid, r.grid, m.x as int, m.y as int, button_cells(d, current))
        }),
{
    reveal_strlit("|");
    let bar = "|"@;
    let text = button_text(d);
    assert(printable(bar));
    assert(printable(text));
    lemma_painted_text(m, bar);
    let a = after(m, bar);
    let first = seq![Cell { ch: '|', style: plain_style() }];
    assert(in_style(bar, plain_style()) =~= first);
    let x = m.x as int;
    let y = m.y as int;
    if d == current {
        let on = "\u{1b}[7m"@;
        let off = "\u{1b}[0m"@;
        lemma_after_join(m, bar, on + (text + off));
        lemma_after_join(a, on, text + off);
        lemma_after_code(a, 7);
        let b = after(a, on);
        lemma_after_join(b, text, off);
        lemma_painted_text(b, text);
        let c = after(b, text);
        lemma_after_code(c, 0);
        lemma_painted_join(m.grid, a.grid, c.grid, x, y, first, in_style(text, reversed()));
    } else {
        lemma_after_join(m, bar, text);
        lemma_painted_text(a, text);
        let c = after(a, text);
        lemma_painted_join(m.grid, a.grid, c.grid, x, y, first, in_style(text, plain_style()));
    }
}

/// The cells of the first `n` buttons.
spec fn buttons_cells(n: int, current: int) -> Seq<Cell> {
    Seq::new((4 * n) as nat, |k: int| button_cell(k, current))
}

proof fn lemma_next_button(n: int, current: int)
    requires
        1 <= n <= 4,
    ensures
        buttons_cells(n, current) == buttons_cells(n - 1, current) + button_cells(n, current),
        buttons(Seq::empty(), n, current) == buttons(Seq::empty(), n - 1, current) + button_codes(
            n,
            current,
        ),
{
    let front = buttons_cells(n - 1, current);
    let one = button_cells(n, current);
    let text = button_text(n);
    assert(one.len() == 4);
    assert(one[0] == button_cell(4 * (n - 1), current));
    assert(text[0] == ' ' && text[1] == digit(n) && text[2] == ' ');
    assert(one[1] == button_cell(4 * (n - 1) + 1, current));
    assert(one[2] == button_cell(4 * (n - 1) + 2, current));
    assert(one[3] == button_cell(4 * (n - 1) + 3, current));
    let all = buttons_cells(n, current);
    assert forall|k: int| 0 <= k < all.len() implies #[trigger] all[k] == (front + one)[k] by {
        if k >= front.len() {
            assert((front + one)[k] == one[k - front.len()]);
        }
    }
    assert(all =~= front + one);
    reveal_strlit(" ");
    assert(dec(n as nat) == seq![digit(n)]);
    let t = buttons(Seq::empty(), n - 1, current);
    let text = " "@ + dec(n as nat) + " "@;
    assert(text =~= button_text(n));
    if n == current {
        let on = "\u{1b}[7m"@;
        let off = "\u{1b}[0m"@;
        let head = t + "|"@ + on;
        lemma_join(head, " "@, dec(n as nat));
        lemma_join(head, " "@ + dec(n as nat), " "@);
        lemma_join(head, text, off);
        lemma_join(t + "|"@, on, text + off);
        lemma_join(t, "|"@, on + (text + off));
    } else {
        let head = t + "|"@;
        lemma_join(head, " "@, dec(n as nat));
        lemma_join(head, " "@ + dec(n as nat), " "@);
        lemma_join(t, "|"@, text);
    }
}

proof fn lemma_join(a: Seq<char>, b: Seq<char>, c: Seq<char>)
    ensures
        a + b + c == a + (b + c),
{
    assert(a + b + c =~= a + (b + c));
}

proof fn lemma_buttons(m: StampModel, n: int, current: int)
    requires
        ready(m),
        m.style == plain_style(),
        0 <= n <= 4,
        m.x + 4 * n < m.grid.w,
        m.y < m.grid.h,
    ensures
        ({
            let r = after(m, buttons(Seq::empty(), n, current));
            &&& follows(m, r)
            &&& r.y == m.y
            &&& r.x == m.x + 4 * n
            &&& painted(m.grid, r.grid, m.x as int, m.y as int, buttons_cells(n, current))
        }),
    decreases n,
{
    if n == 0 {
        reveal(after);
        reveal(painted);
        assert(encode_utf8(buttons(Seq::empty(), n, current)) =~= Seq::empty());
    } else {
        lemma_buttons(m, n - 1, current);
        lemma_next_button(n, current);
        let front = buttons(Seq::empty(), n - 1, current);
        let one = button_codes(n, current);
        lemma_after_join(m, front, one);
        let a = after(m, front);
        lemma_button(a, n, current);
        lemma_painted_join(
            m.grid,
            a.grid,
            after(a, one).grid,
            m.x as int,
            m.y as int,
            buttons_cells(n - 1, current),
            button_cells(n, current),
        );
    }
}

/// The upper edge of the status bar.
pub open spec fn status_edge(w: u16, path: Seq<char>, panel_open: bool) -> Seq<char> {
    seq![
        if panel_open {
            '├'
        } else {
            '┌'
        },
    ] + (if path.len() == 0 {
        repeated('─', w - 2)
    } else {
        "── "@ + path + " "@ + repeated('─', left_over(w - 2, path.len() as int + 4))
    }) + seq![
        if panel_open {
            '┤'
        } else {
            '┐'
        },
    ]
}

/// The status bar before its buttons.
pub open spec fn status_front(w: u16) -> Seq<char> {
    "│"@ + status_bar_prefix() + repeated(' ', w - 30)
}

/// The lower edge of the status bar.
pub open spec fn status_foot(w: u16) -> Seq<char> {
    "└"@ + repeated('─', w - 2) + "┘"@
}

/// What the status bar shows at `(x, y)`, which is in one of the last three rows.
pub open spec fn status_cell(
    w: u16,
    h: u16,
    path: Seq<char>,
    panel_open: bool,
    current: int,
    x: int,
    y: int,
) -> Cell {
    if y == h - 3 {
        Cell { ch: clipped(status_edge(w, path, panel_open), w as int)[x], style: plain_style() }
    } else if y == h - 1 {
        Cell { ch: status_foot(w)[x], style: plain_style() }
    } else if x < w - 17 {
        Cell { ch: status_front(w)[x], style: plain_style() }
    } else if x < w - 1 {
        button_cell(x - (w - 17), current)
    } else {
        Cell { ch: '│', style: plain_style() }
    }
}

proof fn lemma_edges(w: u16, path: Seq<char>, panel_open: bool)
    requires
        w >= 30,
        printable(path),
    ensures
        status_edge(w, path, panel_open).len() >= w,
        printable(status_edge(w, path, panel_open)),
        status_front(w).len() == w - 17,
        printable(status_front(w)),
        status_foot(w).len() == w,
        printable(status_foot(w)),
{
    reveal_strlit("── ");
    reveal_strlit(" ");
    reveal_strlit("│");
    reveal_strlit("└");
    reveal_strlit("┘");
    reveal_strlit(" Start | .> ");
    let e = status_edge(w, path, panel_open);
    assert forall|i: int| 0 <= i < e.len() implies showable(#[trigger] e[i]) by {
        if path.len() > 0 && 4 <= i < 4 + path.len() {
            assert(showable(path[i - 4]));
            assert(e[i] == path[i - 4]);
        }
    }
    let f = status_front(w);
    assert forall|i: int| 0 <= i < f.len() implies showable(#[trigger] f[i]) by {}
    let g = status_foot(w);
    assert forall|i: int| 0 <= i < g.len() implies showable(#[trigger] g[i]) by {}
}

/// The text of the upper edge.
proof fn lemma_edge_text(w: u16, h: u16, path: Seq<char>, panel_open: bool)
    requires
        w >= 30,
        h >= 3,
    ensures
        ({
            let t = Seq::<char>::empty() + move_text(0, h - 3) + (if panel_open {
                "├"@
            } else {
                "┌"@
            });
            let t = if path.len() == 0 {
                t + repeated('─', w - 2)
            } else {
                let t = t + "── "@ + path + " "@;
                t + repeated('─', left_over(w - 2, path.len() as int + 4))
            };
            let t = t + (if panel_open {
                "┤"@
            } else {
                "┐"@
            });
            t == move_text(0, h - 3) + status_edge(w, path, panel_open)
        }),
{
    reveal_strlit("├");
    reveal_strlit("┌");
    reveal_strlit("┤");
    reveal_strlit("┐");
    let left = if panel_open {
        "├"@
    } else {
        "┌"@
    };
    let right = if panel_open {
        "┤"@
    } else {
        "┐"@
    };
    assert(left =~= seq![
        if panel_open {
            '├'
        } else {
            '┌'
        },
    ]);
    assert(right =~= seq![
        if panel_open {
            '┤'
        } else {
            '┐'
        },
    ]);
    let at = move_text(0, h - 3);
    assert(Seq::<char>::empty() + at =~= at);
    let head = at + left;
    let fill = repeated('─', left_over(w - 2, path.len() as int + 4));
    if path.len() > 0 {
        lemma_join(head, "── "@, path);
        lemma_join(head, "── "@ + path, " "@);
        lemma_join(head, "── "@ + path + " "@, fill);
    }
    let mid = if path.len() == 0 {
        repeated('─', w - 2)
    } else {
        "── "@ + path + " "@ + fill
    };
    lemma_join(at, left, mid);
    lemma_join(at, left + mid, right);
}

/// The row of the status bar that has the buttons, as it is written.
spec fn bar_codes(w: u16, h: u16, current: int) -> Seq<char> {
    move_text(0, h - 2) + status_front(w) + buttons(Seq::empty(), 4, current) + "│"@
}

/// The text of the status bar, row by row.
proof fn lemma_status_text(
    w: u16,
    h: u16,
    path: Seq<char>,
    panel_open: bool,
    current: int,
)
    requires
        w >= 30,
        h >= 3,
    ensures
        status_drawn(Seq::empty(), w, h, path, panel_open, current) == (move_text(0, h - 3)
            + status_edge(w, path, panel_open)) + bar_codes(w, h, current) + (move_text(0, h - 1)
            + status_foot(w)),
{
    lemma_edge_text(w, h, path, panel_open);
    let first = move_text(0, h - 3) + status_edge(w, path, panel_open);
    let at = move_text(0, h - 2);
    let edge = "│"@;
    let space = repeated(' ', w - 30);
    let front = status_front(w);
    let list = buttons(Seq::empty(), 4, current);
    assert(DESKTOP_COUNT as int == 4);
    assert(left_over(w - 2, STATUS_PREFIX_LEN + DESKTOP_AREA_LEN) == w - 30);
    lemma_join(first + at, edge, status_bar_prefix());
    lemma_join(first + at, edge + status_bar_prefix(), space);
    lemma_buttons_behind(first + at + front, 4, current);
    lemma_join(first, at, front);
    lemma_join(first, at + front, list);
    lemma_join(first, at + front + list, edge);
    let bar = first + bar_codes(w, h, current);
    let low = move_text(0, h - 1);
    let line = repeated('─', w - 2);
    lemma_join(bar + low, "└"@, line);
    lemma_join(bar + low, "└"@ + line, "┘"@);
    lemma_join(bar, low, status_foot(w));
}

/// A row of the status bar.
spec fn status_row(
    w: u16,
    h: u16,
    path: Seq<char>,
    panel_open: bool,
    current: int,
    y: int,
) -> Seq<Cell> {
    Seq::new(w as nat, |x: int| status_cell(w, h, path, panel_open, current, x, y))
}

/// A row that is written in one piece.
proof fn lemma_row_put(m: StampModel, y: int, s: Seq<char>)
    requires
        ready(m),
        m.style == plain_style(),
        printable(s),
        0 < m.grid.w,
        0 <= y < m.grid.h,
    ensures
        ({
            let r = after(m, move_text(0, y) + s);
            &&& follows(m, r)
            &&& r.y == y
            &&& s.len() < m.grid.w ==> r.x == s.len()
            &&& painted(
                m.grid,
                r.grid,
                0,
                y,
                in_style(clipped(s, m.grid.w as int), plain_style()),
            )
        }),
{
    reveal(after);
    lemma_run_join(m, move_text(0, y), s);
    lemma_move(m, 0, y);
    lemma_long_text(m.run(encode_utf8(move_text(0, y))), s);
    let r = after(m, move_text(0, y) + s);
    lemma_painted(m.grid, r.grid, 0, y, clipped(s, m.grid.w as int), plain_style());
}

/// The row of the status bar that has the buttons.
proof fn lemma_bar_row(
    m: StampModel,
    w: u16,
    h: u16,
    path: Seq<char>,
    panel_open: bool,
    current: int,
)
    requires
        ready(m),
        m.style == plain_style(),
        m.grid.w == w,
        m.grid.h == h,
        w >= 30,
        h >= 3,
        printable(path),
    ensures
        ({
            let r = after(m, bar_codes(w, h, current));
            &&& follows(m, r)
            &&& painted(
                m.grid,
                r.grid,
                0,
                h - 2,
                status_row(w, h, path, panel_open, current, h - 2),
            )
        }),
{
    lemma_edges(w, path, panel_open);
    reveal_strlit("│");
    let front = status_front(w);
    let head = move_text(0, h - 2) + front;
    let body = buttons(Seq::empty(), 4, current);
    let foot = "│"@;
    lemma_after_join(m, head + body, foot);
    lemma_after_join(m, head, body);
    lemma_row_put(m, h - 2, front);
    let a = after(m, head);
    lemma_buttons(a, 4, current);
    let b = after(a, body);
    assert(printable(foot));
    lemma_painted_text(b, foot);
    let r = after(b, foot);
    let c1 = in_style(front, plain_style());
    let c2 = buttons_cells(4, current);
    let c3 = in_style(foot, plain_style());
    lemma_painted_join(m.grid, a.grid, b.grid, 0, h - 2, c1, c2);
    lemma_painted_join(m.grid, b.grid, r.grid, 0, h - 2, c1 + c2, c3);
    assert(c1 + c2 + c3 =~= status_row(w, h, path, panel_open, current, h - 2));
}

/// What the cells of the buttons show.
proof fn lemma_status_cell(
    w: u16,
    h: u16,
    path: Seq<char>,
    panel_open: bool,
    current: int,
    x: u16,
    y: u16,
)
    requires
        w >= 30,
        h >= 3,
        x < w,
        h - 3 <= y < h,
    ensures
        ({
            let c = status_cell(w, h, path, panel_open, current, x as int, y as int);
            &&& c.style.attrs.holds(Attributes::REVERSE) == (button_at(x, y, w, h) matches Some(d)
                && d == current)
            &&& button_at(x, y, w, h) matches Some(d) ==> 1 <= d <= 4 && c.ch == (if x == w - 17
                + 4 * (d - 1) + 2 {
                digit(d as int)
            } else {
                ' '
            })
        }),
{
    assert(0u16 & 32u16 == 0 && 32u16 & 32u16 != 0) by (bit_vector);
}

/// The status bar takes the last three rows and nothing else. The cells that
/// `desktop_at` gives to a desktop read its number between two blanks; they are
/// reversed where it is the current one, and no other cell is.
pub proof fn lemma_status_bar_shown(
    m: StampModel,
    w: u16,
    h: u16,
    path: Seq<char>,
    panel_open: bool,
    current: int,
)
    requires
        ready(m),
        m.style == plain_style(),
        m.grid.w == w,
        m.grid.h == h,
        w >= 30,
        h >= 3,
        printable(path),
    ensures
        ({
            let r = m.run(
                encode_utf8(status_drawn(Seq::empty(), w, h, path, panel_open, current)),
            );
            &&& follows(m, r)
            &&& forall|x: int, y: int|
                #[trigger] r.grid.cell(x, y) == (if 0 <= x < w && h - 3 <= y < h {
                    status_cell(w, h, path, panel_open, current, x, y)
                } else {
                    m.grid.cell(x, y)
                })
            &&& forall|x: u16, y: u16|
                x < w && h - 3 <= y < h ==> {
                    let c = #[trigger] r.grid.cell(x as int, y as int);
                    &&& c.style.attrs.holds(Attributes::REVERSE) == (button_at(x, y, w, h)
                        matches Some(d) && d == current)
                    &&& button_at(x, y, w, h) matches Some(d) ==> 1 <= d <= 4 && c.ch == (if x == w
                        - 17 + 4 * (d - 1) + 2 {
                        digit(d as int)
                    } else {
                        ' '
                    })
                }
        }),
{
    lemma_edges(w, path, panel_open);
    lemma_status_text(w, h, path, panel_open, current);
    let edge = status_edge(w, path, panel_open);
    let top = move_text(0, h - 3) + edge;
    let bar = bar_codes(w, h, current);
    let foot = move_text(0, h - 1) + status_foot(w);
    lemma_after_join(m, top + bar, foot);
    lemma_after_join(m, top, bar);
    lemma_row_put(m, h - 3, edge);
    let a = after(m, top);
    lemma_bar_row(a, w, h, path, panel_open, current);
    let b = after(a, bar);
    lemma_row_put(b, h - 1, status_foot(w));
    let r = after(b, foot);
    assert(in_style(clipped(edge, w as int), plain_style()) =~= status_row(
        w,
        h,
        path,
        panel_open,
        current,
        h - 3,
    ));
    assert(in_style(status_foot(w), plain_style()) =~= status_row(
        w,
        h,
        path,
        panel_open,
        current,
        h - 1,
    ));
    assert(r == m.run(
        encode_utf8(status_drawn(Seq::empty(), w, h, path, panel_open, current)),
    )) by {
        reveal(after);
    }
    lemma_three_rows(m.grid, a.grid, b.grid, r.grid, w, h, path, panel_open, current);
    assert forall|x: u16, y: u16| x < w && h - 3 <= y < h implies {
        let c = #[trigger] r.grid.cell(x as int, y as int);
        &&& c.style.attrs.holds(Attributes::REVERSE) == (button_at(x, y, w, h) matches Some(d) && d
            == current)
        &&& button_at(x, y, w, h) matches Some(d) ==> 1 <= d <= 4 && c.ch == (if x == w - 17 + 4 * (
        d - 1) + 2 {
            digit(d as int)
        } else {
            ' '
        })
    } by {
        lemma_status_cell(w, h, path, panel_open, current, x, y);
    }
}

proof fn lemma_three_rows(
    g: GridModel,
    a: GridModel,
    b: GridModel,
    r: GridModel,
    w: u16,
    h: u16,
    path: Seq<char>,
    panel_open: bool,
    current: int,
)
    requires
        h >= 3,
        painted(g, a, 0, h - 3, status_row(w, h, path, panel_open, current, h - 3)),
        painted(a, b, 0, h - 2, status_row(w, h, path, panel_open, current, h - 2)),
        painted(b, r, 0, h - 1, status_row(w, h, path, panel_open, current, h - 1)),
    ensures
        forall|x: int, y: int|
            #[trigger] r.cell(x, y) == (if 0 <= x < w && h - 3 <= y < h {
                status_cell(w, h, path, panel_open, current, x, y)
            } else {
                g.cell(x, y)
            }),
{
    reveal(painted);
    assert forall|x: int, y: int|
        #[trigger] r.cell(x, y) == (if 0 <= x < w && h - 3 <= y < h {
            status_cell(w, h, path, panel_open, current, x, y)
        } else {
            g.cell(x, y)
        }) by {
        let in_b = b.cell(x, y);
        let in_a = a.cell(x, y);
        let rows = |k: int| status_row(w, h, path, panel_open, current, k);
        if 0 <= x < w && h - 3 <= y < h {
            assert(rows(y)[x] == status_cell(w, h, path, panel_open, current, x, y));
        }
    }
}

} // verus!

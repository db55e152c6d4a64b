//! What the frame of a window shows on a grid.
use vstd::prelude::*;
use crate::terminal_emulator::{plain_style, Cell};
use crate::text::{centered, repeated, titled};
use crate::ui::ansi::move_text;
use crate::ui::damage::showable;
use crate::ui::inside::{
    boxed, lemma_boxed_none, lemma_boxed_row, lemma_column_from, lemma_stamped_join,
    lemma_stamped_nothing, plain_ready, stamped,
};
use crate::ui::screen::StampModel;
use crate::ui::stamped::{follows, lemma_put, printable};
use crate::ui::window::{bar_char, bar_column, bar_row, column, put, Window};

verus! {

/// A character in the plain style.
pub open spec fn plain_cell(ch: char) -> Cell {
    Cell { ch, style: plain_style() }
}

pub open spec fn text_at(s: Seq<char>) -> spec_fn(int, int) -> Cell {
    |i: int, c: int| plain_cell(s[c])
}

/// Text put at a cell.
pub(crate) proof fn lemma_put_boxed(m: StampModel, x: int, y: int, s: Seq<char>)
    requires
        plain_ready(m),
        printable(s),
        0 <= x < m.grid.w,
        x + s.len() <= m.grid.w,
        0 <= y < m.grid.h,
    ensures
        boxed(m, stamped(m, move_text(x, y) + s), x, y, s.len() as int, 1, text_at(s)),
{
    let r = stamped(m, move_text(x, y) + s);
    assert(follows(m, r) && forall|a: int, b: int|
        #[trigger] r.grid.cell(a, b) == (if b == y && x <= a < x + s.len() {
            Cell { ch: s[a - x], style: m.style }
        } else {
            m.grid.cell(a, b)
        })) by {
        reveal(stamped);
        lemma_put(m, x, y, s);
    }
    lemma_boxed_none(m, x, y, s.len() as int, text_at(s));
    lemma_boxed_row(m, m, r, x, y, s.len() as int, 0, text_at(s));
}

/// The same text in rows below one another.
pub(crate) proof fn lemma_column_boxed(m: StampModel, x: int, y: int, from: int, to: int, s: Seq<char>)
    requires
        plain_ready(m),
        printable(s),
        0 <= x < m.grid.w,
        x + s.len() <= m.grid.w,
        0 <= y,
        0 <= from <= to,
        y + to <= m.grid.h,
    ensures
        boxed(
            m,
            stamped(m, column(Seq::empty(), x, y, from, to, s)),
            x,
            y + from,
            s.len() as int,
            to - from,
            text_at(s),
        ),
    decreases to - from,
{
    let at = text_at(s);
    let w = s.len() as int;
    if to == from {
        lemma_stamped_nothing(m);
        lemma_boxed_none(m, x, y + from, w, at);
    } else {
        lemma_column_boxed(m, x, y, from, to - 1, s);
        let front = column(Seq::empty(), x, y, from, to - 1, s);
        let one = move_text(x, y + to - 1) + s;
        assert(column(Seq::empty(), x, y, from, to, s) =~= front + one);
        lemma_stamped_join(m, front, one);
        let b = stamped(m, front);
        assert(plain_ready(b) && b.grid.w == m.grid.w && b.grid.h == m.grid.h) by {
            reveal(boxed);
        }
        let r = stamped(b, one);
        assert(follows(b, r) && forall|p: int, q: int|
            #[trigger] r.grid.cell(p, q) == (if q == y + to - 1 && x <= p < x + s.len() {
                Cell { ch: s[p - x], style: b.style }
            } else {
                b.grid.cell(p, q)
            })) by {
            reveal(stamped);
            lemma_put(b, x, y + to - 1, s);
        }
        lemma_boxed_row(m, b, r, x, y + from, w, to - 1 - from, at);
    }
}

proof fn lemma_bar_row_behind(t: Seq<char>, x: int, y: int, n: int, pos: int, len: int)
    ensures
        bar_row(t, x, y, n, pos, len) == t + bar_row(Seq::empty(), x, y, n, pos, len),
    decreases n,
{
    if n <= 0 {
        assert(t + Seq::empty() =~= t);
    } else {
        lemma_bar_row_behind(t, x, y, n - 1, pos, len);
        assert(bar_row(t, x, y, n, pos, len) =~= t + bar_row(Seq::empty(), x, y, n, pos, len));
    }
}

proof fn lemma_bar_column_behind(t: Seq<char>, x: int, y: int, n: int, pos: int, len: int)
    ensures
        bar_column(t, x, y, n, pos, len) == t + bar_column(Seq::empty(), x, y, n, pos, len),
    decreases n,
{
    if n <= 0 {
        assert(t + Seq::empty() =~= t);
    } else {
        lemma_bar_column_behind(t, x, y, n - 1, pos, len);
        assert(bar_column(t, x, y, n, pos, len) =~= t + bar_column(
            Seq::empty(),
            x,
            y,
            n,
            pos,
            len,
        ));
    }
}

pub(crate) proof fn lemma_one_char(m: StampModel, x: int, y: int, c: char)
    requires
        plain_ready(m),
        showable(c),
        0 <= x < m.grid.w,
        0 <= y < m.grid.h,
    ensures
        ({
            let r = stamped(m, move_text(x, y).push(c));
            &&& follows(m, r)
            &&& forall|a: int, b: int|
                #[trigger] r.grid.cell(a, b) == (if b == y && a == x {
                    plain_cell(c)
                } else {
                    m.grid.cell(a, b)
                })
        }),
{
    assert(move_text(x, y).push(c) =~= move_text(x, y) + seq![c]);
    reveal(stamped);
    lemma_put(m, x, y, seq![c]);
}

/// A scrollbar that runs to the right.
proof fn lemma_bar_row(m: StampModel, x: int, y: int, n: int, pos: int, len: int)
    requires
        plain_ready(m),
        0 <= x,
        0 <= n,
        x + n <= m.grid.w,
        0 <= y < m.grid.h,
    ensures
        ({
            let r = stamped(m, bar_row(Seq::empty(), x, y, n, pos, len));
            &&& follows(m, r)
            &&& forall|a: int, b: int|
                #[trigger] r.grid.cell(a, b) == (if b == y && x <= a < x + n {
                    plain_cell(bar_char(pos, len, a - x))
                } else {
                    m.grid.cell(a, b)
                })
        }),
    decreases n,
{
    if n == 0 {
        lemma_stamped_nothing(m);
    } else {
        lemma_bar_row(m, x, y, n - 1, pos, len);
        let front = bar_row(Seq::empty(), x, y, n - 1, pos, len);
        let one = move_text(x + n - 1, y).push(bar_char(pos, len, n - 1));
        assert(bar_row(Seq::empty(), x, y, n, pos, len) =~= front + one);
        lemma_stamped_join(m, front, one);
        let s = stamped(m, front);
        lemma_one_char(s, x + n - 1, y, bar_char(pos, len, n - 1));
        let r = stamped(s, one);
        assert forall|a: int, b: int|
            #[trigger] r.grid.cell(a, b) == (if b == y && x <= a < x + n {
                plain_cell(bar_char(pos, len, a - x))
            } else {
                m.grid.cell(a, b)
            }) by {
            assert(s.grid.cell(a, b) == (if b == y && x <= a < x + n - 1 {
                plain_cell(bar_char(pos, len, a - x))
            } else {
                m.grid.cell(a, b)
            }));
        }
    }
}

/// A scrollbar that runs down.
proof fn lemma_bar_column(m: StampModel, x: int, y: int, n: int, pos: int, len: int)
    requires
        plain_ready(m),
        0 <= x < m.grid.w,
        0 <= n,
        0 <= y,
        y + n <= m.grid.h,
    ensures
        ({
            let r = stamped(m, bar_column(Seq::empty(), x, y, n, pos, len));
            &&& follows(m, r)
            &&& forall|a: int, b: int|
                #[trigger] r.grid.cell(a, b) == (if a == x && y <= b < y + n {
                    plain_cell(bar_char(pos, len, b - y))
                } else {
                    m.grid.cell(a, b)
                })
        }),
    decreases n,
{
    if n == 0 {
        lemma_stamped_nothing(m);
    } else {
        lemma_bar_column(m, x, y, n - 1, pos, len);
        let front = bar_column(Seq::empty(), x, y, n - 1, pos, len);
        let one = move_text(x, y + n - 1).push(bar_char(pos, len, n - 1));
        assert(bar_column(Seq::empty(), x, y, n, pos, len) =~= front + one);
        lemma_stamped_join(m, front, one);
        let s = stamped(m, front);
        lemma_one_char(s, x, y + n - 1, bar_char(pos, len, n - 1));
        let r = stamped(s, one);
        assert forall|a: int, b: int|
            #[trigger] r.grid.cell(a, b) == (if a == x && y <= b < y + n {
                plain_cell(bar_char(pos, len, b - y))
            } else {
                m.grid.cell(a, b)
            }) by {
            assert(s.grid.cell(a, b) == (if a == x && y <= b < y + n - 1 {
                plain_cell(bar_char(pos, len, b - y))
            } else {
                m.grid.cell(a, b)
            }));
        }
    }
}

/// The first row of a window.
spec fn head(win: Window, title: Seq<char>) -> Seq<char> {
    seq!['┌'] + centered(titled(title), '─', win.inner_w()) + seq!['┐']
}

/// The last row of a window.
spec fn foot(win: Window) -> Seq<char> {
    seq!['└'] + repeated('─', win.inner_w()) + seq!['┘']
}

/// The text of a window without its scrollbars.
spec fn outline(win: Window, title: Seq<char>) -> Seq<char> {
    let (x, y) = (win.position_x as int, win.position_y as int);
    let rows = win.height - 1;
    (move_text(x, y) + head(win, title)) + column(
        Seq::empty(),
        x + 1,
        y,
        1,
        rows,
        repeated(' ', win.inner_w()),
    ) + column(Seq::empty(), x, y, 1, rows, seq!['│']) + column(
        Seq::empty(),
        win.right(),
        y,
        1,
        rows,
        seq!['│'],
    ) + (move_text(x, win.bottom()) + foot(win))
}

spec fn bars(win: Window) -> Seq<char> {
    let (x, y) = (win.position_x as int, win.position_y as int);
    (if win.scrolls_h() {
        let (pos, len) = win.thumb_h();
        bar_row(Seq::empty(), x + 1, win.bottom() - 1, win.track_h(), pos as int, len as int)
    } else {
        Seq::empty()
    }) + (if win.scrolls_v() {
        let (pos, len) = win.thumb_v();
        bar_column(Seq::empty(), win.right() - 1, y + 1, win.track_v(), pos as int, len as int)
    } else {
        Seq::empty()
    })
}

proof fn lemma_window_text(win: Window, title: Seq<char>)
    ensures
        win.drawn(Seq::empty(), title) == outline(win, title) + bars(win),
{
    let (x, y) = (win.position_x as int, win.position_y as int);
    let rows = win.height - 1;
    reveal_strlit("┌");
    reveal_strlit("┐");
    reveal_strlit("└");
    reveal_strlit("┘");
    reveal_strlit("│");
    assert("┌"@ =~= seq!['┌']);
    assert("┐"@ =~= seq!['┐']);
    assert("└"@ =~= seq!['└']);
    assert("┘"@ =~= seq!['┘']);
    assert("│"@ =~= seq!['│']);
    let blank = repeated(' ', win.inner_w());
    let side = seq!['│'];
    let t1 = put(Seq::empty(), x, y, "┌"@) + centered(titled(title), '─', win.inner_w()) + "┐"@;
    assert(t1 =~= move_text(x, y) + head(win, title));
    lemma_column_from(t1, x + 1, y, 1, rows, blank);
    let t2 = column(t1, x + 1, y, 1, rows, blank);
    lemma_column_from(t2, x, y, 1, rows, side);
    let t3 = column(t2, x, y, 1, rows, side);
    lemma_column_from(t3, win.right(), y, 1, rows, side);
    let t4 = column(t3, win.right(), y, 1, rows, side);
    let t5 = put(t4, x, win.bottom(), "└"@) + repeated('─', win.inner_w()) + "┘"@;
    assert(t5 =~= outline(win, title));
    let (hp, hl) = win.thumb_h();
    let (vp, vl) = win.thumb_v();
    let t6 = if win.scrolls_h() {
        bar_row(t5, x + 1, win.bottom() - 1, win.track_h(), hp as int, hl as int)
    } else {
        t5
    };
    lemma_bar_row_behind(t5, x + 1, win.bottom() - 1, win.track_h(), hp as int, hl as int);
    lemma_bar_column_behind(t6, win.right() - 1, y + 1, win.track_v(), vp as int, vl as int);
    assert(win.drawn(Seq::empty(), title) =~= outline(win, title) + bars(win));
}

/// What a window without scrollbars shows at a cell of it.
pub open spec fn outline_cell(win: Window, title: Seq<char>, a: int, b: int) -> char {
    let (x, y) = (win.position_x as int, win.position_y as int);
    let (right, bottom) = (x + win.width - 1, y + win.height - 1);
    if b == y && a == x {
        '┌'
    } else if b == y && a == right {
        '┐'
    } else if b == bottom && a == x {
        '└'
    } else if b == bottom && a == right {
        '┘'
    } else if b == y {
        centered(titled(title), '─', win.width - 2)[a - x - 1]
    } else if b == bottom {
        '─'
    } else if a == x || a == right {
        '│'
    } else {
        ' '
    }
}

/// Whether a window and its title fit the screen.
pub open spec fn frame_fits(m: StampModel, win: Window, title: Seq<char>) -> bool {
    &&& 3 <= win.width && 3 <= win.height
    &&& win.position_x + win.width <= m.grid.w
    &&& win.position_y + win.height <= m.grid.h
    &&& printable(title)
    &&& title.len() + 2 <= win.width - 2
}

proof fn lemma_outline_shown(m: StampModel, win: Window, title: Seq<char>)
    requires
        plain_ready(m),
        frame_fits(m, win, title),
    ensures
        ({
            let r = stamped(m, outline(win, title));
            &&& follows(m, r)
            &&& forall|a: int, b: int|
                #[trigger] r.grid.cell(a, b) == (if win.position_x <= a <= win.right()
                    && win.position_y <= b <= win.bottom() {
                    plain_cell(outline_cell(win, title, a, b))
                } else {
                    m.grid.cell(a, b)
                })
        }),
{
    let (x, y) = (win.position_x as int, win.position_y as int);
    let rows = win.height - 1;
    let inner = win.inner_w();
    let mid = centered(titled(title), '─', inner);
    let (h, f) = (head(win, title), foot(win));
    let blank = repeated(' ', inner);
    let side = seq!['│'];
    assert(mid.len() == inner);
    assert(printable(h)) by {
        assert forall|i: int| 0 <= i < h.len() implies showable(#[trigger] h[i]) by {
            if 1 <= i < h.len() - 1 {
                assert(h[i] == mid[i - 1]);
                let pad = (inner - titled(title).len()) / 2;
                if pad <= i - 1 < pad + titled(title).len() {
                    assert(mid[i - 1] == titled(title)[i - 1 - pad]);
                }
            }
        }
    }
    assert(printable(f)) by {
        assert forall|i: int| 0 <= i < f.len() implies showable(#[trigger] f[i]) by {
            if 1 <= i < f.len() - 1 {
                assert(f[i] == '─');
            }
        }
    }
    let p1 = move_text(x, y) + h;
    let p2 = column(Seq::empty(), x + 1, y, 1, rows, blank);
    let p3 = column(Seq::empty(), x, y, 1, rows, side);
    let p4 = column(Seq::empty(), win.right(), y, 1, rows, side);
    let p5 = move_text(x, win.bottom()) + f;
    lemma_stamped_join(m, p1 + p2 + p3 + p4, p5);
    lemma_stamped_join(m, p1 + p2 + p3, p4);
    lemma_stamped_join(m, p1 + p2, p3);
    lemma_stamped_join(m, p1, p2);
    let a1 = stamped(m, p1);
    lemma_put_boxed(m, x, y, h);
    assert(plain_ready(a1) && a1.grid.w == m.grid.w && a1.grid.h == m.grid.h) by {
        reveal(boxed);
    }
    let a2 = stamped(a1, p2);
    lemma_column_boxed(a1, x + 1, y, 1, rows, blank);
    assert(plain_ready(a2) && a2.grid.w == m.grid.w && a2.grid.h == m.grid.h) by {
        reveal(boxed);
    }
    let a3 = stamped(a2, p3);
    lemma_column_boxed(a2, x, y, 1, rows, side);
    assert(plain_ready(a3) && a3.grid.w == m.grid.w && a3.grid.h == m.grid.h) by {
        reveal(boxed);
    }
    let a4 = stamped(a3, p4);
    lemma_column_boxed(a3, win.right(), y, 1, rows, side);
    assert(plain_ready(a4) && a4.grid.w == m.grid.w && a4.grid.h == m.grid.h) by {
        reveal(boxed);
    }
    let a5 = stamped(a4, p5);
    lemma_put_boxed(a4, x, win.bottom(), f);
    assert(follows(m, a5)) by {
        reveal(boxed);
    }
    assert forall|a: int, b: int|
        #[trigger] a5.grid.cell(a, b) == (if x <= a <= win.right() && y <= b <= win.bottom() {
            plain_cell(outline_cell(win, title, a, b))
        } else {
            m.grid.cell(a, b)
        }) by {
        reveal(boxed);
        assert(a1.grid.cell(a, b) == (if y <= b < y + 1 && x <= a < x + h.len() {
            text_at(h)(b - y, a - x)
        } else {
            m.grid.cell(a, b)
        }));
        assert(a2.grid.cell(a, b) == (if y + 1 <= b < y + 1 + (rows - 1) && x + 1 <= a < x + 1
            + blank.len() {
            text_at(blank)(b - (y + 1), a - (x + 1))
        } else {
            a1.grid.cell(a, b)
        }));
        assert(a3.grid.cell(a, b) == (if y + 1 <= b < y + 1 + (rows - 1) && x <= a < x
            + side.len() {
            text_at(side)(b - (y + 1), a - x)
        } else {
            a2.grid.cell(a, b)
        }));
        assert(a4.grid.cell(a, b) == (if y + 1 <= b < y + 1 + (rows - 1) && win.right() <= a
            < win.right() + side.len() {
            text_at(side)(b - (y + 1), a - win.right())
        } else {
            a3.grid.cell(a, b)
        }));
    }
}

/// A window takes its cells and no others: its frame with the corners, the title in the
/// middle of the first row, and blanks inside. With scrollbars, the last row and column
/// inside show them. Each cell shows the character that `char_at` gives for it, for a
/// window without the buttons on its corners.
pub proof fn lemma_window_shown(m: StampModel, win: Window, title: Seq<char>)
    requires
        plain_ready(m),
        frame_fits(m, win, title),
    ensures
        ({
            let r = stamped(m, win.drawn(Seq::empty(), title));
            &&& follows(m, r)
            &&& forall|a: int, b: int|
                #[trigger] r.grid.cell(a, b) == (if win.position_x <= a < win.position_x + win.width
                    && win.position_y <= b < win.position_y + win.height {
                    match win.bare().frame_char(a, b, title) {
                        Some(ch) => plain_cell(ch),
                        None => plain_cell(' '),
                    }
                } else {
                    m.grid.cell(a, b)
                })
            &&& win.content_w <= win.width - 2 && win.content_h <= win.height - 2 ==> forall|
                a: int,
                b: int,
            |
                win.position_x <= a < win.position_x + win.width && win.position_y <= b
                    < win.position_y + win.height ==> #[trigger] r.grid.cell(a, b) == plain_cell(
                    outline_cell(win, title, a, b),
                )
        }),
{
    let (x, y) = (win.position_x as int, win.position_y as int);
    lemma_window_text(win, title);
    lemma_stamped_join(m, outline(win, title), bars(win));
    lemma_outline_shown(m, win, title);
    let s = stamped(m, outline(win, title));
    let (hp, hl) = win.thumb_h();
    let (vp, vl) = win.thumb_v();
    let p = if win.scrolls_h() {
        bar_row(Seq::empty(), x + 1, win.bottom() - 1, win.track_h(), hp as int, hl as int)
    } else {
        Seq::empty()
    };
    let q = if win.scrolls_v() {
        bar_column(Seq::empty(), win.right() - 1, y + 1, win.track_v(), vp as int, vl as int)
    } else {
        Seq::empty()
    };
    lemma_stamped_join(s, p, q);
    let t = stamped(s, p);
    if win.scrolls_h() {
        lemma_bar_row(s, x + 1, win.bottom() - 1, win.track_h(), hp as int, hl as int);
    } else {
        lemma_stamped_nothing(s);
    }
    let r = stamped(t, q);
    if win.scrolls_v() {
        lemma_bar_column(t, win.right() - 1, y + 1, win.track_v(), vp as int, vl as int);
    } else {
        lemma_stamped_nothing(t);
    }
}

/// A title stands in the middle of its row, with a blank on either side.
pub proof fn lemma_title_centered(title: Seq<char>, n: int, i: int)
    requires
        title.len() + 2 <= n,
        0 <= i < n,
    ensures
        ({
            let row = centered(titled(title), '─', n);
            let left = (n - title.len() - 2) / 2;
            &&& row.len() == n
            &&& row[i] == (if left < i <= left + title.len() {
                title[i - left - 1]
            } else if i == left || i == left + title.len() + 1 {
                ' '
            } else {
                '─'
            })
        }),
{
}

} // verus!

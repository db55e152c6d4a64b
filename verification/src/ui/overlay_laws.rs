//! What the selection and the pointer change on a grid, and the text of a box of it.
use vstd::prelude::*;
use vstd::utf8::encode_utf8;
use crate::terminal_emulator::{plain_style, Cell};
use crate::text::{lemma_trim_blanks, trim_blanks};
use crate::ui::ansi::move_text;
use crate::ui::damage::{lemma_char, lemma_move, lemma_run_join, showable};
use crate::ui::inside::{plain_ready, smaller};
use crate::ui::pointer::Pointer;
use crate::ui::render::{box_inverted, inverted, row_inverted, selection_drawn, FrameModel};
use crate::ui::screen::{BoxSelect, GridModel, StampModel};
use crate::ui::stamped::{follows, lemma_code, lemma_put, lemma_with, reversed};

verus! {

/// A character in reverse video.
proof fn lemma_reversed_char(m: StampModel, x: int, y: int, c: char)
    requires
        plain_ready(m),
        showable(c),
        0 <= x < m.grid.w,
        0 <= y < m.grid.h,
    ensures
        ({
            let t = (move_text(x, y) + "\u{1b}[7m"@).push(c) + "\u{1b}[0m"@;
            let r = m.run(encode_utf8(t));
            &&& follows(m, r)
            &&& r.grid == m.grid.with(x, y, Cell { ch: c, style: reversed() })
        }),
{
    let go = move_text(x, y);
    let on = "\u{1b}[7m"@;
    let off = "\u{1b}[0m"@;
    assert((go + on).push(c) + off =~= go + on + seq![c] + off);
    lemma_run_join(m, go + on + seq![c], off);
    lemma_run_join(m, go + on, seq![c]);
    lemma_run_join(m, go, on);
    lemma_move(m, x, y);
    let a0 = m.run(encode_utf8(go));
    lemma_code(a0, 7);
    let a1 = a0.run(encode_utf8(on));
    lemma_char(a1, c);
    lemma_with(m.grid, x, y, Cell { ch: c, style: reversed() });
    let a2 = a1.run(encode_utf8(seq![c]));
    lemma_code(a2, 0);
}

// ── The selection ────────────────────────────────────────────────────────────

/// Every character in a box can be written.
pub open spec fn box_showable(g: GridModel, left: int, top: int, right: int, bottom: int) -> bool {
    forall|a: int, b: int|
        left <= a <= right && top <= b <= bottom ==> showable((#[trigger] g.cell(a, b)).ch)
}

/// The same character in reverse video.
pub open spec fn selected_cell(c: Cell) -> Cell {
    Cell { ch: c.ch, style: reversed() }
}

proof fn lemma_row_inverted(m: StampModel, left: int, y: int, n: int)
    requires
        plain_ready(m),
        0 <= left,
        0 <= n,
        left + n <= m.grid.w,
        0 <= y < m.grid.h,
        box_showable(m.grid, left, y, left + n - 1, y),
    ensures
        ({
            let r = row_inverted(m, left, y, n);
            &&& follows(m, r)
            &&& forall|a: int, b: int|
                #[trigger] r.grid.cell(a, b) == (if b == y && left <= a < left + n {
                    selected_cell(m.grid.cell(a, b))
                } else {
                    m.grid.cell(a, b)
                })
        }),
    decreases n,
{
    if n > 0 {
        assert(box_showable(m.grid, left, y, left + n - 2, y));
        lemma_row_inverted(m, left, y, n - 1);
        let s = row_inverted(m, left, y, n - 1);
        let x = left + n - 1;
        let c = s.grid.cell(x, y).ch;
        assert(s.grid.cell(x, y) == m.grid.cell(x, y));
        assert(showable(m.grid.cell(x, y).ch));
        lemma_reversed_char(s, x, y, c);
        lemma_with(s.grid, x, y, Cell { ch: c, style: reversed() });
        let r = row_inverted(m, left, y, n);
        assert(r == inverted(s, x, y));
        assert forall|a: int, b: int|
            #[trigger] r.grid.cell(a, b) == (if b == y && left <= a < left + n {
                selected_cell(m.grid.cell(a, b))
            } else {
                m.grid.cell(a, b)
            }) by {
            assert(s.grid.cell(a, b) == (if b == y && left <= a < left + n - 1 {
                selected_cell(m.grid.cell(a, b))
            } else {
                m.grid.cell(a, b)
            }));
        }
    }
}

proof fn lemma_box_inverted(m: StampModel, left: int, top: int, width: int, n: int)
    requires
        plain_ready(m),
        0 <= left,
        0 <= width,
        left + width <= m.grid.w,
        0 <= top,
        0 <= n,
        top + n <= m.grid.h,
        box_showable(m.grid, left, top, left + width - 1, top + n - 1),
    ensures
        ({
            let r = box_inverted(m, left, top, width, n);
            &&& follows(m, r)
            &&& forall|a: int, b: int|
                #[trigger] r.grid.cell(a, b) == (if top <= b < top + n && left <= a < left + width {
                    selected_cell(m.grid.cell(a, b))
                } else {
                    m.grid.cell(a, b)
                })
        }),
    decreases n,
{
    if n > 0 {
        assert(box_showable(m.grid, left, top, left + width - 1, top + n - 2));
        lemma_box_inverted(m, left, top, width, n - 1);
        let s = box_inverted(m, left, top, width, n - 1);
        let y = top + n - 1;
        assert(box_showable(s.grid, left, y, left + width - 1, y)) by {
            assert forall|a: int, b: int| left <= a <= left + width - 1 && y <= b <= y implies showable(
                (#[trigger] s.grid.cell(a, b)).ch,
            ) by {
                assert(s.grid.cell(a, b) == m.grid.cell(a, b));
                assert(showable(m.grid.cell(a, b).ch));
            }
        }
        lemma_row_inverted(s, left, y, width);
        let r = box_inverted(m, left, top, width, n);
        assert forall|a: int, b: int|
            #[trigger] r.grid.cell(a, b) == (if top <= b < top + n && left <= a < left + width {
                selected_cell(m.grid.cell(a, b))
            } else {
                m.grid.cell(a, b)
            }) by {
            assert(s.grid.cell(a, b) == (if top <= b < top + n - 1 && left <= a < left + width {
                selected_cell(m.grid.cell(a, b))
            } else {
                m.grid.cell(a, b)
            }));
        }
    }
}

/// The selection is shown in reverse video: every cell from one of its corners to the
/// other, both with it, as far as they are on the screen, and no other cell.
pub proof fn lemma_selection_shown(m: StampModel, f: FrameModel, s: BoxSelect)
    requires
        plain_ready(m),
        m.grid.w == f.w,
        m.grid.h == f.h,
        f.selection == Some(s),
        box_showable(m.grid, 0, 0, f.w - 1, f.h - 1),
    ensures
        ({
            let r = selection_drawn(m, f);
            forall|a: int, b: int|
                0 <= a < f.w && 0 <= b < f.h ==> #[trigger] r.grid.cell(a, b) == (if (s.anchor.0
                    <= b <= s.extent.0 || s.extent.0 <= b <= s.anchor.0) && (s.anchor.1 <= a
                    <= s.extent.1 || s.extent.1 <= a <= s.anchor.1) {
                    selected_cell(m.grid.cell(a, b))
                } else {
                    m.grid.cell(a, b)
                })
        }),
{
    let (top, bottom, left, right) = s.span();
    let last_y = smaller(bottom as int, f.h - 1);
    let last_x = smaller(right as int, f.w - 1);
    if top <= last_y && left <= last_x {
        assert(box_showable(m.grid, left as int, top as int, last_x, last_y));
        lemma_box_inverted(m, left as int, top as int, last_x - left + 1, last_y - top + 1);
    } else if top <= last_y {
        lemma_no_width(m, left as int, top as int, last_x - left + 1, last_y - top + 1);
    }
}

proof fn lemma_no_width(m: StampModel, left: int, top: int, width: int, n: int)
    requires
        width <= 0,
    ensures
        box_inverted(m, left, top, width, n) == m,
    decreases n,
{
    if n > 0 {
        lemma_no_width(m, left, top, width, n - 1);
    }
}

// ── The pointer ──────────────────────────────────────────────────────────────

/// The pointer takes its cell and no other: a shade, or the character that it stands on in
/// reverse video.
pub proof fn lemma_pointer_shown(m: StampModel, p: Pointer, glyph: Option<char>)
    requires
        plain_ready(m),
        p.x < m.grid.w,
        p.y < m.grid.h,
        glyph matches Some(c) ==> showable(c),
    ensures
        ({
            let r = m.run(encode_utf8(p.drawn(Seq::empty(), glyph)));
            &&& follows(m, r)
            &&& forall|a: int, b: int|
                #[trigger] r.grid.cell(a, b) == (if a == p.x && b == p.y {
                    match glyph {
                        None => Cell { ch: '░', style: plain_style() },
                        Some(c) => Cell { ch: c, style: reversed() },
                    }
                } else {
                    m.grid.cell(a, b)
                })
        }),
{
    let go = move_text(p.x as int, p.y as int);
    assert(Seq::empty() + go =~= go);
    match glyph {
        None => {
            reveal_strlit("░");
            assert("░"@ =~= seq!['░']);
            lemma_put(m, p.x as int, p.y as int, seq!['░']);
        },
        Some(c) => {
            lemma_reversed_char(m, p.x as int, p.y as int, c);
            lemma_with(m.grid, p.x as int, p.y as int, Cell { ch: c, style: reversed() });
        },
    }
}

// ── The text of a box ────────────────────────────────────────────────────────

/// The text of a row is that of its cells, from the left one to the right one, and only
/// blanks are left out, at its end.
pub proof fn lemma_row_text(g: GridModel, left: int, right: int, y: int)
    requires
        0 <= left <= right < g.w,
    ensures
        ({
            let t = g.row_text(left, right, y);
            &&& t.len() <= right - left + 1
            &&& forall|k: int| 0 <= k < t.len() ==> #[trigger] t[k] == g.cell(left + k, y).ch
            &&& forall|a: int| left + t.len() <= a <= right ==> (#[trigger] g.cell(a, y)).ch == ' '
            &&& t.len() > 0 ==> t.last() != ' '
        }),
{
    let all = Seq::new((right - left + 1) as nat, |k: int| g.cell(left + k, y).ch);
    lemma_trim_blanks(all);
    let t = g.row_text(left, right, y);
    assert(t == trim_blanks(all));
    assert forall|a: int| left + t.len() <= a <= right implies (#[trigger] g.cell(a, y)).ch
        == ' ' by {
        assert(all[a - left] == g.cell(a, y).ch);
    }
}

/// The text of a box is that of its rows from the first to the last, with a line break
/// between two.
pub proof fn lemma_box_text(g: GridModel, left: int, top: int, right: int, bottom: int)
    requires
        top < bottom,
    ensures
        g.box_text(left, top, right, bottom) == g.row_text(left, right, top) + seq!['\n']
            + g.box_text(left, top + 1, right, bottom),
        g.box_text(left, top, right, top) == g.row_text(left, right, top),
    decreases bottom - top,
{
    if bottom == top + 1 {
        reveal_with_fuel(GridModel::box_text, 2);
        assert(g.box_text(left, top, right, bottom) =~= g.row_text(left, right, top) + seq!['\n']
            + g.box_text(left, top + 1, right, bottom));
    } else {
        lemma_box_text(g, left, top, right, bottom - 1);
        assert(g.box_text(left, top, right, bottom) =~= g.row_text(left, right, top) + seq!['\n']
            + g.box_text(left, top + 1, right, bottom));
    }
}

} // verus!

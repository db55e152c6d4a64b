//! What the panel of the dock and the lines that are typed show on a grid.
use vstd::prelude::*;
use crate::cmd::EntryModel;
use crate::text::repeated;
use crate::ui::ansi::move_text;
use crate::ui::damage::showable;
use crate::ui::framed::{lemma_put_boxed, plain_cell, text_at};
use crate::ui::inside::{
    boxed, lemma_bar_behind, lemma_boxed_none, lemma_boxed_row, lemma_stamped_join,
    lemma_stamped_nothing, plain_ready, smaller, stamped, text_cell,
};
use crate::ui::panel::{
    all_rows, blocks_of, lemma_shown_fits, panel_box, panel_drawn, panel_rows, panel_width,
    put_padded, shown_rows, sliced,
};
use crate::ui::render::{field_text, input_drawn, FrameModel};
use crate::ui::screen::StampModel;
use crate::ui::stamped::{follows, lemma_put, lemma_scrollbar_shown, printable};
use crate::ui::window::put;
use crate::ui::scrollbar_drawn;

verus! {

/// A row of the panel, with its frame.
spec fn panel_row(s: Seq<char>, inner: int) -> Seq<char> {
    let part = sliced(s, 0, inner);
    seq!['│'] + part + repeated(' ', inner - part.len()) + seq![' ', '│']
}

spec fn panel_cell(rows: Seq<Seq<char>>, inner: int) -> spec_fn(int, int) -> crate::terminal_emulator::Cell {
    |i: int, c: int| plain_cell(panel_row(rows[i], inner)[c])
}

proof fn lemma_panel_row(s: Seq<char>, inner: int)
    requires
        inner >= 0,
        printable(s),
    ensures
        printable(panel_row(s, inner)),
        panel_row(s, inner).len() == inner + 3,
        forall|c: int|
            0 <= c < inner ==> plain_cell(#[trigger] panel_row(s, inner)[1 + c]) == text_cell(s, c),
{
    let part = sliced(s, 0, inner);
    let r = panel_row(s, inner);
    assert forall|i: int| 0 <= i < r.len() implies showable(#[trigger] r[i]) by {
        if 1 <= i <= part.len() {
            assert(r[i] == s[i - 1]);
        }
    }
    assert forall|c: int| 0 <= c < inner implies plain_cell(
        #[trigger] panel_row(s, inner)[1 + c],
    ) == text_cell(s, c) by {
        if c < part.len() {
            assert(r[1 + c] == part[c]);
        }
    }
}

proof fn lemma_panel_rows_behind(t: Seq<char>, y: int, rows: Seq<Seq<char>>, n: int, inner: int)
    ensures
        panel_rows(t, y, rows, n, inner) == t + panel_rows(Seq::empty(), y, rows, n, inner),
    decreases n,
{
    if n <= 0 {
        assert(t + Seq::empty() =~= t);
    } else {
        lemma_panel_rows_behind(t, y, rows, n - 1, inner);
        assert(panel_rows(t, y, rows, n, inner) =~= t + panel_rows(
            Seq::empty(),
            y,
            rows,
            n,
            inner,
        ));
    }
}

proof fn lemma_panel_rows(m: StampModel, y: int, rows: Seq<Seq<char>>, n: int, inner: int)
    requires
        plain_ready(m),
        0 < inner,
        inner + 3 <= m.grid.w,
        0 <= y,
        0 <= n <= rows.len(),
        y + n <= m.grid.h,
        forall|i: int| 0 <= i < n ==> printable(#[trigger] rows[i]),
    ensures
        boxed(
            m,
            stamped(m, panel_rows(Seq::empty(), y, rows, n, inner)),
            0,
            y,
            inner + 3,
            n,
            panel_cell(rows, inner),
        ),
    decreases n,
{
    let at = panel_cell(rows, inner);
    if n == 0 {
        lemma_stamped_nothing(m);
        lemma_boxed_none(m, 0, y, inner + 3, at);
    } else {
        lemma_panel_rows(m, y, rows, n - 1, inner);
        let front = panel_rows(Seq::empty(), y, rows, n - 1, inner);
        let s = stamped(m, front);
        assert(plain_ready(s) && s.grid.w == m.grid.w && s.grid.h == m.grid.h) by {
            reveal(boxed);
        }
        let row = panel_row(rows[n - 1], inner);
        lemma_panel_row(rows[n - 1], inner);
        let one = move_text(0, y + n - 1) + row;
        reveal_strlit("│");
        reveal_strlit(" │");
        assert(panel_rows(Seq::empty(), y, rows, n, inner) =~= front + one);
        lemma_stamped_join(m, front, one);
        let r = stamped(s, one);
        assert(follows(s, r) && forall|a: int, b: int|
            #[trigger] r.grid.cell(a, b) == (if b == y + n - 1 && 0 <= a < 0 + row.len() {
                crate::terminal_emulator::Cell { ch: row[a - 0], style: s.style }
            } else {
                s.grid.cell(a, b)
            })) by {
            reveal(stamped);
            lemma_put(s, 0, y + n - 1, row);
        }
        lemma_boxed_row(m, s, r, 0, y, inner + 3, n - 1, at);
    }
}

/// The panel of the dock: its frame, the path, and its rows one below the other.
#[verifier::spinoff_prover]
#[verifier::rlimit(50)]
proof fn lemma_panel_box(
    m: StampModel,
    w: u16,
    top: u16,
    path: Seq<char>,
    rows: Seq<Seq<char>>,
    total: usize,
    area: usize,
    scroll: usize,
)
    requires
        plain_ready(m),
        5 <= w == m.grid.w,
        top + 2 + area <= m.grid.h,
        rows.len() <= area,
        printable(path),
        forall|i: int| 0 <= i < rows.len() ==> printable(#[trigger] rows[i]),
    ensures
        ({
            let r = stamped(m, panel_box(Seq::empty(), w, top, path, rows, total, area, scroll));
            &&& follows(m, r)
            &&& forall|c: int|
                0 <= c < w - 3 ==> (#[trigger] r.grid.cell(1 + c, top + 1)) == text_cell(path, c)
            &&& forall|i: int, c: int|
                0 <= i < rows.len() && 0 <= c < w - 3 ==> (#[trigger] r.grid.cell(
                    1 + c,
                    top + 2 + i,
                )) == text_cell(rows[i], c)
        }),
{
    let inner = w - 3;
    let n = rows.len() as int;
    reveal_strlit("┌");
    reveal_strlit("┐");
    reveal_strlit("│");
    reveal_strlit(" │");
    let head = seq!['┌'] + repeated('─', w - 2) + seq!['┐'];
    let row = panel_row(path, inner);
    lemma_panel_row(path, inner);
    let p1 = move_text(0, top as int) + head;
    let p2 = move_text(0, top + 1) + row;
    let p3 = panel_rows(Seq::empty(), top + 2, rows, n, inner);
    let p4 = scrollbar_drawn(
        Seq::empty(),
        (w - 2) as u16,
        (top + 2) as u16,
        (top + area + 1) as u16,
        total,
        area,
        (total - area - scroll) as usize,
    );
    let t1 = put(Seq::empty(), 0, top as int, "┌"@) + repeated('─', w - 2) + "┐"@;
    assert(t1 =~= p1);
    let t2 = put_padded(put(t1, 0, top + 1, "│"@), sliced(path, 0, inner), inner) + " │"@;
    assert(t2 =~= p1 + p2);
    lemma_panel_rows_behind(t2, top + 2, rows, n, inner);
    let t3 = p1 + p2 + p3;
    lemma_bar_behind(
        t3,
        (w - 2) as u16,
        (top + 2) as u16,
        (top + area + 1) as u16,
        total,
        area,
        (total - area - scroll) as usize,
    );
    lemma_stamped_join(m, p1 + p2, p3);
    lemma_stamped_join(m, p1, p2);
    assert(printable(head)) by {
        assert forall|i: int| 0 <= i < head.len() implies showable(#[trigger] head[i]) by {
            if 1 <= i < head.len() - 1 {
                assert(head[i] == '─');
            }
        }
    }
    lemma_put_boxed(m, 0, top as int, head);
    let a1 = stamped(m, p1);
    assert(plain_ready(a1) && a1.grid.w == m.grid.w && a1.grid.h == m.grid.h) by {
        reveal(boxed);
    }
    lemma_put_boxed(a1, 0, top + 1, row);
    let a2 = stamped(a1, p2);
    assert(plain_ready(a2) && a2.grid.w == m.grid.w && a2.grid.h == m.grid.h) by {
        reveal(boxed);
    }
    lemma_panel_rows(a2, top + 2, rows, n, inner);
    let a3 = stamped(a2, p3);
    assert(plain_ready(a3) && a3.grid.w == m.grid.w && a3.grid.h == m.grid.h) by {
        reveal(boxed);
    }
    assert forall|c: int| 0 <= c < inner implies a3.grid.cell(1 + c, top + 1) == text_cell(
        path,
        c,
    ) by {
        reveal(boxed);
        assert(a2.grid.cell(1 + c, top + 1) == text_at(row)(0, 1 + c));
        assert(a3.grid.cell(1 + c, top + 1) == a2.grid.cell(1 + c, top + 1));
        assert(plain_cell(row[1 + c]) == text_cell(path, c));
    }
    assert forall|i: int, c: int| 0 <= i < n && 0 <= c < inner implies (#[trigger] a3.grid.cell(
        1 + c,
        top + 2 + i,
    )) == text_cell(rows[i], c) by {
        reveal(boxed);
        lemma_panel_row(rows[i], inner);
        assert(a3.grid.cell(1 + c, top + 2 + i) == panel_cell(rows, inner)(i, 1 + c));
        assert(plain_cell(panel_row(rows[i], inner)[1 + c]) == text_cell(rows[i], c));
    }
    if total > area {
        lemma_stamped_join(m, t3, p4);
        reveal(stamped);
        lemma_scrollbar_shown(
            a3,
            (w - 2) as u16,
            (top + 2) as u16,
            (top + area + 1) as u16,
            total,
            area,
            (total - area - scroll) as usize,
        );
    }
}

/// The panel of the dock stands on the status bar: the rows of its commands are the last
/// above it, one below the other, as many as there are or as three quarters of the screen
/// hold with the path and the frame.
pub proof fn lemma_panel_shown(
    m: StampModel,
    h: u16,
    path: Seq<char>,
    c: Seq<EntryModel>,
    scroll: int,
)
    requires
        plain_ready(m),
        5 <= m.grid.w,
        h == m.grid.h,
        h >= 32,
        path.len() > 0,
        printable(path),
        c.len() > 0,
        scroll >= 0,
        ({
            let total = all_rows(blocks_of(c, panel_width(m.grid.w as u16, path, c))).len();
            0 < total <= usize::MAX - 4
        }),
        forall|area: int, s: int, i: int|
            0 <= i < shown_rows(
                blocks_of(c, panel_width(m.grid.w as u16, path, c)),
                area,
                s,
            ).len() ==> printable(
                #[trigger] shown_rows(
                    blocks_of(c, panel_width(m.grid.w as u16, path, c)),
                    area,
                    s,
                )[i],
            ),
    ensures
        ({
            let w = m.grid.w as u16;
            let r = stamped(m, panel_drawn(Seq::empty(), w, h, path, c, scroll));
            let blocks = blocks_of(c, panel_width(w, path, c));
            let total = all_rows(blocks).len() as int;
            let area = smaller(total, h * 3 / 4 - 2);
            let rows = shown_rows(blocks, area, smaller(scroll, total - area));
            &&& follows(m, r)
            &&& forall|i: int, k: int|
                0 <= i < rows.len() && 0 <= k < w - 3 ==> (#[trigger] r.grid.cell(
                    1 + k,
                    h - 3 - area + i,
                )) == text_cell(rows[i], k)
            &&& forall|k: int|
                0 <= k < w - 3 ==> (#[trigger] r.grid.cell(1 + k, h - 4 - area)) == text_cell(
                    path,
                    k,
                )
        }),
{
    let w = m.grid.w as u16;
    let blocks = blocks_of(c, panel_width(w, path, c));
    let total = all_rows(blocks).len() as int;
    let area = smaller(total, h * 3 / 4 - 2);
    let at = smaller(scroll, total - area);
    let rows = shown_rows(blocks, area, at);
    lemma_shown_fits(blocks, area, at);
    let top = h - 5 - area;
    lemma_panel_box(
        m,
        w,
        top as u16,
        path,
        rows,
        total as usize,
        area as usize,
        at as usize,
    );
    assert(panel_drawn(Seq::empty(), w, h, path, c, scroll) == panel_box(
        Seq::empty(),
        w,
        top as u16,
        path,
        rows,
        total as usize,
        area as usize,
        at as usize,
    ));
    let r = stamped(m, panel_drawn(Seq::empty(), w, h, path, c, scroll));
    assert forall|i: int, k: int| 0 <= i < rows.len() && 0 <= k < w - 3 implies (
    #[trigger] r.grid.cell(1 + k, h - 3 - area + i)) == text_cell(rows[i], k) by {
        assert(h - 3 - area + i == top + 2 + i);
        assert(r.grid.cell(1 + k, top + 2 + i) == text_cell(rows[i], k));
    }
    assert forall|k: int| 0 <= k < w - 3 implies (#[trigger] r.grid.cell(1 + k, h - 4 - area))
        == text_cell(path, k) by {
        assert(h - 4 - area == top + 1);
        assert(r.grid.cell(1 + k, top + 1) == text_cell(path, k));
    }
}

// ── Lines that are typed ─────────────────────────────────────────────────────

/// What is typed into the dock is shown in the status bar, from the fourteenth column on,
/// and takes no other cell.
pub proof fn lemma_dock_input_shown(m: StampModel, f: FrameModel, input: Seq<char>, cursor: usize)
    requires
        plain_ready(m),
        m.grid.w == f.w,
        m.grid.h == f.h,
        f.w >= 16,
        f.h >= 2,
        f.typing_input == Some((input, cursor)),
        printable(input),
        cursor <= input.len() <= f.w - 15,
    ensures
        ({
            let r = stamped(m, input_drawn(f, Seq::empty()));
            &&& follows(m, r)
            &&& forall|a: int, b: int|
                #[trigger] r.grid.cell(a, b) == (if b == f.h - 2 && 13 <= a < f.w - 2 {
                    text_cell(input, a - 13)
                } else {
                    m.grid.cell(a, b)
                })
        }),
{
    let max = f.w - 15;
    let s = field_text(input, cursor, max);
    assert(s == input);
    let whole = s + repeated(' ', max - s.len());
    assert(input_drawn(f, Seq::empty()) =~= move_text(13, f.h - 2) + whole);
    assert(printable(whole)) by {
        assert forall|i: int| 0 <= i < whole.len() implies showable(#[trigger] whole[i]) by {
            if i < s.len() {
                assert(whole[i] == input[i]);
            }
        }
    }
    reveal(stamped);
    lemma_put(m, 13, f.h - 2, whole);
}

} // verus!

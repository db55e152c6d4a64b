//! What the outline of a new size shows on a grid, and where the thumb of a scrollbar is.
use vstd::prelude::*;
use crate::text::repeated;
use crate::ui::ansi::move_text;
use crate::ui::damage::showable;
use crate::ui::framed::{lemma_column_boxed, lemma_one_char, lemma_put_boxed, plain_cell, text_at};
use crate::ui::inside::{
    boxed, lemma_column_from, lemma_stamped_join, lemma_stamped_nothing, plain_ready, stamped,
};
use crate::ui::screen::StampModel;
use crate::ui::scrollbar::{thumb, thumb_len};
use crate::ui::stamped::{follows, printable};
use crate::ui::window::{column, Window};

verus! {

// ── The outline of a new size ────────────────────────────────────────────────

proof fn lemma_edge_behind(win: Window, t: Seq<char>, new_w: u16, n: int)
    ensures
        win.preview_edge(t, new_w, n) == t + win.preview_edge(Seq::empty(), new_w, n),
    decreases n,
{
    if n <= 1 {
        assert(t + Seq::empty() =~= t);
    } else {
        lemma_edge_behind(win, t, new_w, n - 1);
        assert(win.preview_edge(t, new_w, n) =~= t + win.preview_edge(Seq::empty(), new_w, n));
    }
}

/// The right edge of the outline.
proof fn lemma_edge_shown(m: StampModel, win: Window, new_w: u16, n: int)
    requires
        plain_ready(m),
        new_w >= 1,
        win.position_x + new_w <= m.grid.w,
        1 <= n,
        win.position_y + n <= m.grid.h,
    ensures
        ({
            let r = stamped(m, win.preview_edge(Seq::empty(), new_w, n));
            &&& follows(m, r)
            &&& forall|a: int, b: int|
                #[trigger] r.grid.cell(a, b) == (if a == win.position_x + new_w - 1
                    && win.position_y + 1 <= b < win.position_y + n && !(b - win.position_y
                    == win.height - 1 && new_w == win.width) {
                    plain_cell('│')
                } else {
                    m.grid.cell(a, b)
                })
        }),
    decreases n,
{
    if n == 1 {
        lemma_stamped_nothing(m);
    } else {
        lemma_edge_shown(m, win, new_w, n - 1);
        let front = win.preview_edge(Seq::empty(), new_w, n - 1);
        let s = stamped(m, front);
        if !(n - 1 == win.height - 1 && new_w == win.width) {
            reveal_strlit("│");
            let (x, y) = (win.position_x + new_w - 1, win.position_y + n - 1);
            let one = move_text(x, y).push('│');
            assert(win.preview_edge(Seq::empty(), new_w, n) =~= front + one);
            lemma_stamped_join(m, front, one);
            lemma_one_char(s, x, y, '│');
            let r = stamped(s, one);
            assert forall|a: int, b: int|
                #[trigger] r.grid.cell(a, b) == (if a == win.position_x + new_w - 1
                    && win.position_y + 1 <= b < win.position_y + n && !(b - win.position_y
                    == win.height - 1 && new_w == win.width) {
                    plain_cell('│')
                } else {
                    m.grid.cell(a, b)
                }) by {
                assert(s.grid.cell(a, b) == (if a == win.position_x + new_w - 1
                    && win.position_y + 1 <= b < win.position_y + n - 1 && !(b - win.position_y
                    == win.height - 1 && new_w == win.width) {
                    plain_cell('│')
                } else {
                    m.grid.cell(a, b)
                }));
            }
        } else {
            assert forall|a: int, b: int|
                #[trigger] s.grid.cell(a, b) == (if a == win.position_x + new_w - 1
                    && win.position_y + 1 <= b < win.position_y + n && !(b - win.position_y
                    == win.height - 1 && new_w == win.width) {
                    plain_cell('│')
                } else {
                    m.grid.cell(a, b)
                }) by {}
        }
    }
}

/// What is put above, at the left and below.
spec fn above_text(win: Window, new_w: u16) -> Seq<char> {
    if new_w > win.width {
        move_text(win.right() + 1, win.position_y as int) + (repeated(
            '─',
            new_w - win.width - 1,
        ) + seq!['┐'])
    } else {
        Seq::empty()
    }
}

spec fn left_text(win: Window, new_h: u16) -> Seq<char> {
    if new_h > win.height {
        column(
            Seq::empty(),
            win.position_x as int,
            win.position_y as int,
            win.height as int,
            new_h - 1,
            seq!['│'],
        )
    } else {
        Seq::empty()
    }
}

spec fn below_text(win: Window, new_w: u16, new_h: u16) -> Seq<char> {
    if new_h == win.height && new_w > win.width {
        move_text(win.right() + 1, win.bottom()) + (repeated('─', new_w - win.width - 1) + seq![
            '┼',
        ])
    } else {
        move_text(win.position_x as int, win.position_y + new_h - 1) + (seq!['└'] + repeated(
            '─',
            new_w - 2,
        ) + seq!['┼'])
    }
}

proof fn lemma_preview_text(win: Window, new_w: u16, new_h: u16)
    requires
        new_w != win.width || new_h != win.height,
    ensures
        win.previewed(Seq::empty(), new_w, new_h) == above_text(win, new_w) + win.preview_edge(
            Seq::empty(),
            new_w,
            new_h - 1,
        ) + left_text(win, new_h) + below_text(win, new_w, new_h),
{
    let (x, y) = (win.position_x as int, win.position_y as int);
    reveal_strlit("┐");
    reveal_strlit("│");
    reveal_strlit("┼");
    reveal_strlit("└");
    assert("┐"@ =~= seq!['┐']);
    assert("│"@ =~= seq!['│']);
    assert("┼"@ =~= seq!['┼']);
    assert("└"@ =~= seq!['└']);
    let t1 = if new_w > win.width {
        Seq::empty() + move_text(win.right() + 1, y) + repeated('─', new_w - win.width - 1) + "┐"@
    } else {
        Seq::empty()
    };
    assert(t1 =~= above_text(win, new_w));
    lemma_edge_behind(win, t1, new_w, new_h - 1);
    let t2 = win.preview_edge(t1, new_w, new_h - 1);
    lemma_column_from(t2, x, y, win.height as int, new_h - 1, seq!['│']);
    let t3 = if new_h > win.height {
        column(t2, x, y, win.height as int, new_h - 1, "│"@)
    } else {
        t2
    };
    assert(t3 =~= t2 + left_text(win, new_h));
    assert(win.previewed(Seq::empty(), new_w, new_h) =~= t3 + below_text(win, new_w, new_h));
}

proof fn lemma_line_printable(first: Seq<char>, n: int, last: char)
    requires
        printable(first),
        showable(last),
    ensures
        printable(first + repeated('─', n) + seq![last]),
{
    let s = first + repeated('─', n) + seq![last];
    assert forall|i: int| 0 <= i < s.len() implies showable(#[trigger] s[i]) by {
        if i < first.len() {
            assert(s[i] == first[i]);
        } else if i < s.len() - 1 {
            assert(s[i] == '─');
        }
    }
}

/// The outline of a new size shows where the window will end: a cross at its new corner,
/// lines to the new right edge and the new last row. Inside of it and outside nothing
/// changes.
#[verifier::spinoff_prover]
#[verifier::rlimit(40)]
pub proof fn lemma_preview_shown(m: StampModel, win: Window, new_w: u16, new_h: u16)
    requires
        plain_ready(m),
        win.width >= 3,
        win.height >= 3,
        new_w >= 3,
        new_h >= 3,
        new_w != win.width || new_h != win.height,
        win.position_x + new_w <= m.grid.w,
        win.position_y + new_h <= m.grid.h,
        win.position_x + win.width <= m.grid.w,
        win.position_y + win.height <= m.grid.h,
    ensures
        ({
            let r = stamped(m, win.previewed(Seq::empty(), new_w, new_h));
            let (x, y) = (win.position_x as int, win.position_y as int);
            let (right, bottom) = (x + new_w - 1, y + new_h - 1);
            &&& follows(m, r)
            &&& r.grid.cell(right, bottom) == plain_cell('┼')
            &&& forall|b: int|
                y < b < bottom && !(b == y + win.height - 1 && new_w == win.width)
                    ==> #[trigger] r.grid.cell(right, b) == plain_cell('│')
            &&& new_h != win.height ==> r.grid.cell(x, bottom) == plain_cell('└') && forall|a: int|
                x < a < right ==> #[trigger] r.grid.cell(a, bottom) == plain_cell('─')
            &&& new_w > win.width ==> r.grid.cell(right, y) == plain_cell('┐')
            &&& forall|a: int, b: int|
                a != right && b != bottom && a != x && b != y ==> #[trigger] r.grid.cell(a, b)
                    == m.grid.cell(a, b)
        }),
{
    let (x, y) = (win.position_x as int, win.position_y as int);
    let (right, bottom) = (x + new_w - 1, y + new_h - 1);
    lemma_preview_text(win, new_w, new_h);
    let p1 = above_text(win, new_w);
    let p2 = win.preview_edge(Seq::empty(), new_w, new_h - 1);
    let p3 = left_text(win, new_h);
    let p4 = below_text(win, new_w, new_h);
    lemma_stamped_join(m, p1 + p2 + p3, p4);
    lemma_stamped_join(m, p1 + p2, p3);
    lemma_stamped_join(m, p1, p2);
    let a1 = stamped(m, p1);
    let top = repeated('─', new_w - win.width - 1) + seq!['┐'];
    if new_w > win.width {
        lemma_line_printable(Seq::empty(), new_w - win.width - 1, '┐');
        assert(Seq::empty() + repeated('─', new_w - win.width - 1) + seq!['┐'] =~= top);
        lemma_put_boxed(m, win.right() + 1, y, top);
    } else {
        lemma_stamped_nothing(m);
    }
    assert(plain_ready(a1) && a1.grid.w == m.grid.w && a1.grid.h == m.grid.h) by {
        reveal(boxed);
    }
    let a2 = stamped(a1, p2);
    lemma_edge_shown(a1, win, new_w, new_h - 1);
    let a3 = stamped(a2, p3);
    if new_h > win.height {
        assert(printable(seq!['│']));
        lemma_column_boxed(a2, x, y, win.height as int, new_h - 1, seq!['│']);
    } else {
        lemma_stamped_nothing(a2);
    }
    assert(plain_ready(a3) && a3.grid.w == m.grid.w && a3.grid.h == m.grid.h) by {
        reveal(boxed);
    }
    let a4 = stamped(a3, p4);
    reveal(boxed);
    if new_h == win.height && new_w > win.width {
        let s = repeated('─', new_w - win.width - 1) + seq!['┼'];
        lemma_line_printable(Seq::empty(), new_w - win.width - 1, '┼');
        assert(Seq::empty() + repeated('─', new_w - win.width - 1) + seq!['┼'] =~= s);
        lemma_put_boxed(a3, win.right() + 1, win.bottom(), s);
        assert(a4.grid.cell(right, bottom) == text_at(s)(0, right - win.right() - 1));
    } else {
        let s = seq!['└'] + repeated('─', new_w - 2) + seq!['┼'];
        assert(printable(seq!['└']));
        lemma_line_printable(seq!['└'], new_w - 2, '┼');
        lemma_put_boxed(a3, x, bottom, s);
        assert(a4.grid.cell(right, bottom) == text_at(s)(0, right - x));
        assert(a4.grid.cell(x, bottom) == text_at(s)(0, 0));
        assert forall|a: int| x < a < right implies #[trigger] a4.grid.cell(a, bottom)
            == plain_cell('─') by {
            assert(a4.grid.cell(a, bottom) == text_at(s)(0, a - x));
        }
    }
    if new_w > win.width {
        assert(a1.grid.cell(right, y) == text_at(top)(0, right - win.right() - 1));
        assert(a2.grid.cell(right, y) == a1.grid.cell(right, y));
        assert(a3.grid.cell(right, y) == a2.grid.cell(right, y));
        assert(a4.grid.cell(right, y) == a3.grid.cell(right, y));
    }
    assert forall|b: int|
        y < b < bottom && !(b == y + win.height - 1 && new_w == win.width) implies #[trigger] a4.grid.cell(
        right,
        b,
    ) == plain_cell('│') by {
        assert(a2.grid.cell(right, b) == plain_cell('│'));
        assert(a3.grid.cell(right, b) == a2.grid.cell(right, b));
        assert(a4.grid.cell(right, b) == a3.grid.cell(right, b));
    }
    assert forall|a: int, b: int|
        a != right && b != bottom && a != x && b != y implies #[trigger] a4.grid.cell(a, b)
        == m.grid.cell(a, b) by {
        assert(a1.grid.cell(a, b) == m.grid.cell(a, b));
        assert(a2.grid.cell(a, b) == a1.grid.cell(a, b));
        assert(a3.grid.cell(a, b) == a2.grid.cell(a, b));
        assert(a4.grid.cell(a, b) == a3.grid.cell(a, b));
    }
}

// ── The thumb of a scrollbar ─────────────────────────────────────────────────

/// The thumb is at the start of the track where nothing is scrolled, at its end where all
/// is, and never moves back when more is scrolled.
pub proof fn lemma_thumb_ends(track: usize, total: usize, visible: usize, a: usize, b: usize)
    requires
        visible < total,
        a <= b <= total - visible,
        thumb_len(track, total, visible) <= track,
    ensures
        thumb(track, total, visible, 0).0 == 0,
        thumb(track, total, visible, (total - visible) as usize).0 + thumb_len(
            track,
            total,
            visible,
        ) == track,
        thumb(track, total, visible, a).0 <= thumb(track, total, visible, b).0,
        thumb(track, total, visible, a).1 == thumb_len(track, total, visible),
        track > 0 ==> thumb_len(track, total, visible) > 0,
{
    let len = thumb_len(track, total, visible);
    let room = track - len;
    let most = total - visible;
    assert(0 * room / most == 0) by (nonlinear_arith)
        requires
            most > 0,
    ;
    assert(most * room / most == room) by (nonlinear_arith)
        requires
            most > 0,
    ;
    assert(0 <= a * room / most <= b * room / most <= room) by (nonlinear_arith)
        requires
            0 <= a <= b <= most,
            most > 0,
            room >= 0,
    ;
}

} // verus!

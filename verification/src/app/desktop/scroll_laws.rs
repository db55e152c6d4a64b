//! Where clicks on scrollbars take a window, where the text cursor is shown, and what the
//! pointer shows of what it stands on.
use vstd::prelude::*;
use crate::app::AppModel;
use crate::ui::render::{caret, field_column, field_text, pointer_glyph, FrameModel};
use crate::ui::window::Window;
use crate::wm::{front, lemma_tabs_fit, line_count, scrolled_h, scrolled_v};

verus! {

// ── Scrollbars of windows ────────────────────────────────────────────────────

/// A click on the upper half of the vertical scrollbar of a window scrolls it back by a
/// row, one on the lower half on by a row, to the last one that fills the window. Nothing
/// else of the window changes.
pub proof fn lemma_bar_clicked_down(w: Window, x: int, y: int)
    requires
        w.width >= 3,
        w.height >= 3,
        w.content_h > w.height - 2,
        w.content_w <= w.width - 2,
        x == w.position_x + w.width - 2,
        w.position_y < y < w.position_y + w.height - 1,
        w.scroll_y < 0xffff,
    ensures
        ({
            let (v, taken) = w.clicked(x, y);
            let rows = w.height - 2;
            let upper = y - w.position_y - 1 < rows / 2;
            &&& taken
            &&& v == (Window { scroll_y: v.scroll_y, ..w })
            &&& upper && w.scroll_y > 0 ==> v.scroll_y == w.scroll_y - 1
            &&& upper && w.scroll_y == 0 ==> v.scroll_y == 0
            &&& !upper && w.scroll_y < w.content_h - rows ==> v.scroll_y == w.scroll_y + 1
            &&& !upper && w.scroll_y >= w.content_h - rows ==> v.scroll_y == w.content_h - rows
        }),
{
}

/// A click on the left half of the horizontal scrollbar of a window scrolls it back by a
/// column, one on the right half on by a column, to the last one that fills the window.
pub proof fn lemma_bar_clicked_right(w: Window, x: int, y: int)
    requires
        w.width >= 3,
        w.height >= 3,
        w.content_w > w.width - 2,
        w.content_h <= w.height - 2,
        y == w.position_y + w.height - 2,
        w.position_x < x < w.position_x + w.width - 1,
        w.scroll_x < 0xffff,
    ensures
        ({
            let (v, taken) = w.clicked(x, y);
            let cols = w.width - 2;
            let left = x - w.position_x - 1 < cols / 2;
            &&& taken
            &&& v == (Window { scroll_x: v.scroll_x, ..w })
            &&& left && w.scroll_x > 0 ==> v.scroll_x == w.scroll_x - 1
            &&& left && w.scroll_x == 0 ==> v.scroll_x == 0
            &&& !left && w.scroll_x < w.content_w - cols ==> v.scroll_x == w.scroll_x + 1
            &&& !left && w.scroll_x >= w.content_w - cols ==> v.scroll_x == w.content_w - cols
        }),
{
}

/// A click elsewhere is not one on a scrollbar.
pub proof fn lemma_bar_not_clicked(w: Window, x: int, y: int)
    requires
        w.width >= 3,
        w.height >= 3,
        x < w.position_x + w.width - 2 || x > w.position_x + w.width - 2 || w.content_h <= w.height
            - 2,
        y < w.position_y + w.height - 2 || y > w.position_y + w.height - 2 || w.content_w <= w.width
            - 2,
    ensures
        w.clicked(x, y) == (w, false),
{
}

// ── Scrollbars of terminals ──────────────────────────────────────────────────

/// Whether an application is a terminal with a session whose scrollbar is in column `x`,
/// from row `top` on, `area` rows high.
pub open spec fn terminal_bar(a: AppModel, x: u16, top: int, area: int) -> bool {
    &&& a.terminal is Some && (a.terminal->0).session is Some
    &&& a.window() is Some
    &&& (a.window()->0).height >= 5
    &&& (a.window()->0).width >= 2
    &&& (a.window()->0).position_x + (a.window()->0).width <= 0xffff
    &&& x == (a.window()->0).position_x + (a.window()->0).width - 2
    &&& top == (a.window()->0).position_y + 1
    &&& area == (a.window()->0).height - (if (a.terminal->0).emulator is Some {
        2int
    } else {
        4
    })
}

/// A click on the scrollbar of a terminal scrolls it in proportion: as many of the lines
/// that can be scrolled over are above what is shown as there is of the bar down to the
/// row that was clicked, and the last row shows the newest line.
pub proof fn lemma_terminal_bar_clicked(a: AppModel, x: u16, y: u16, top: int, area: int)
    requires
        terminal_bar(a, x, top, area),
        top <= y < top + area,
        line_count(a.terminal->0) <= usize::MAX,
    ensures
        ({
            let most = line_count(a.terminal->0) - area;
            let t = (scrolled_v(a, x, y).0.terminal->0).panel_scroll as int;
            let rows = y - top + 1;
            &&& most <= 0 ==> t == 0
            &&& most > 0 ==> 0 <= t <= most
            &&& most > 0 ==> (most - t) * area <= rows * most < (most - t + 1) * area
            &&& rows == area ==> t == 0
        }),
{
    let most = line_count(a.terminal->0) - area;
    let rows = y - top + 1;
    if most > 0 {
        let down = rows * most / area;
        assert(0 <= down <= most && down * area <= rows * most && rows * most < (down + 1) * area)
            by (nonlinear_arith)
            requires
                down == rows * most / area,
                0 < area,
                0 < most,
                0 < rows <= area,
        ;
        if rows == area {
            assert(area * most / area == most) by (nonlinear_arith)
                requires
                    area > 0,
            ;
        }
    }
}

/// A click further down on the scrollbar of a terminal never shows older lines.
pub proof fn lemma_terminal_bar_ordered(a: AppModel, x: u16, y: u16, z: u16, top: int, area: int)
    requires
        terminal_bar(a, x, top, area),
        top <= y <= z < top + area,
        line_count(a.terminal->0) <= usize::MAX,
    ensures
        (scrolled_v(a, x, y).0.terminal->0).panel_scroll >= (scrolled_v(
            a,
            x,
            z,
        ).0.terminal->0).panel_scroll,
{
    lemma_terminal_bar_clicked(a, x, y, top, area);
    lemma_terminal_bar_clicked(a, x, z, top, area);
    let most = line_count(a.terminal->0) - area;
    if most > 0 {
        let t = (scrolled_v(a, x, y).0.terminal->0).panel_scroll as int;
        let u = (scrolled_v(a, x, z).0.terminal->0).panel_scroll as int;
        let (p, q) = (y - top + 1, z - top + 1);
        assert(t >= u) by (nonlinear_arith)
            requires
                (most - t) * area <= p * most,
                p * most < (most - t + 1) * area,
                (most - u) * area <= q * most,
                q * most < (most - u + 1) * area,
                p <= q,
                area > 0,
                most > 0,
        ;
    }
}

/// A click on the row of the path of a terminal without a session, where its lines are
/// wider than the window: the left half scrolls back by a column, the right half on.
pub proof fn lemma_path_row_clicked(a: AppModel, x: u16, y: u16)
    requires
        a.terminal is Some,
        (a.terminal->0).session is None,
        a.window() is Some,
        ({
            let w = a.window()->0;
            &&& w.width >= 3 && w.height >= 5
            &&& w.position_x + w.width <= 0xffff
            &&& w.position_x < x < w.position_x + w.width - 1
            &&& y == w.position_y + (if w.content_w > w.width - 2 {
                w.height - 4
            } else {
                w.height - 3
            })
        }),
        crate::wm::scroll_limit(a.terminal->0, (a.window()->0).inner_w()) > 0,
    ensures
        ({
            let (b, taken) = scrolled_h(a, x, y);
            let (v, w) = (a.window()->0, b.window()->0);
            let left = x - v.position_x - 1 < (v.width - 2) / 2;
            let last = crate::wm::scroll_limit(a.terminal->0, v.inner_w());
            &&& taken
            &&& w == (Window { scroll_x: w.scroll_x, ..v })
            &&& left && v.scroll_x > 0 ==> w.scroll_x == v.scroll_x - 1
            &&& left && v.scroll_x == 0 ==> w.scroll_x == 0
            &&& !left && v.scroll_x < last ==> w.scroll_x == v.scroll_x + 1
            &&& !left && v.scroll_x >= last ==> w.scroll_x == last
        }),
{
}

// ── The text cursor ──────────────────────────────────────────────────────────

/// In a field of `max` characters the cursor is shown at the character that it is on, and
/// a line that fits is shown whole. A line is moved only where the cursor would leave the
/// field.
pub proof fn lemma_cursor_on_character(input: Seq<char>, cursor: usize, max: int)
    requires
        0 < max <= usize::MAX,
        cursor < input.len() <= usize::MAX,
    ensures
        ({
            let (s, c) = (field_text(input, cursor, max), field_column(input, cursor, max));
            &&& 0 <= c < s.len() <= max
            &&& s[c] == input[cursor as int]
            &&& input.len() <= max ==> s == input
            &&& cursor < max && max < input.len() ==> s == input.take(max)
            &&& cursor >= max ==> c >= max - 1
        }),
{
    if cursor < max && max < input.len() {
        assert(field_text(input, cursor, max) =~= input.take(max));
    }
}

/// Behind the last character the cursor is shown behind it, or at the end of a field that
/// is full.
pub proof fn lemma_cursor_behind_text(input: Seq<char>, cursor: usize, max: int)
    requires
        0 < max < usize::MAX,
        cursor == input.len(),
    ensures
        ({
            let (s, c) = (field_text(input, cursor, max), field_column(input, cursor, max));
            &&& input.len() <= max ==> s == input && c == input.len()
            &&& input.len() > max ==> c == max && s.len() == max && s.last() == input.last()
        }),
{
}

/// The text cursor of the dock is in the status bar, behind its prompt.
pub proof fn lemma_dock_caret(f: FrameModel, input: Seq<char>, cursor: usize)
    requires
        f.typing_input == Some((input, cursor)),
        cursor <= input.len() <= f.w - 15,
        f.w >= 16,
    ensures
        caret(f) == Some((13 + cursor, f.h - 2)),
{
}

/// The text cursor of a terminal is in the last row inside its window, behind its prompt.
pub proof fn lemma_terminal_caret(
    f: FrameModel,
    i: usize,
    w: Window,
    input: Seq<char>,
    cursor: usize,
)
    requires
        f.typing_input is None,
        f.focused == Some((i, input, cursor)),
        i < f.apps.len(),
        f.apps[i as int].window() == Some(w),
        f.apps[i as int].desktop == f.desktop,
        f.apps[i as int].terminal is Some,
        !(f.apps[i as int].terminal->0).interactive,
        (f.apps[i as int].terminal->0).repl_prompt is None,
        w.height >= 5,
        w.width >= 8,
        cursor <= input.len() <= w.width - 6,
    ensures
        caret(f) == Some((w.position_x + 5 + cursor, w.position_y + w.height - 2)),
{
    reveal_strlit(" .> ");
}

// ── What the pointer stands on ───────────────────────────────────────────────

/// Over a window the pointer shows the character of the frame or of a scrollbar that it
/// stands on, and what the mode says where there is none.
pub proof fn lemma_glyph_of_frame(f: FrameModel, i: usize)
    requires
        front(f.apps, f.desktop, Some((f.pointer.x, f.pointer.y))) == Some(i),
        f.pointer.x < f.w - 3,
        f.pointer.y < f.h - 2,
        f.w >= 3,
        f.h >= 2,
    ensures
        pointer_glyph(f) == (match (f.apps[i as int].window()->0).frame_char(
            f.pointer.x as int,
            f.pointer.y as int,
            f.apps[i as int].title,
        ) {
            Some(c) => Some(c),
            None => f.cursor_interaction,
        }),
{
}

/// On the corners of a window the pointer shows what a press does there: minimise on the
/// upper left one, close on the upper right one.
pub proof fn lemma_glyph_of_corners(w: Window, title: Seq<char>)
    requires
        w.width >= 2,
        w.height >= 2,
    ensures
        w.minimizable ==> w.frame_char(w.position_x as int, w.position_y as int, title) == Some('-'),
        w.closable ==> w.frame_char(
            w.position_x + w.width - 1,
            w.position_y as int,
            title,
        ) == Some('x'),
        w.frame_char(w.position_x + w.width - 1, w.position_y + w.height - 1, title) == Some('┘'),
        w.frame_char(w.position_x as int, w.position_y + w.height - 1, title) == Some('└'),
{
}

/// On the status bar the pointer shows the letter of ` Start ` or the cell of a button that
/// it stands on: the number of the desktop in the middle, blanks on either side.
pub proof fn lemma_glyph_of_bar(f: FrameModel, k: int, j: int)
    requires
        f.w >= 40,
        f.h >= 5,
        f.pointer.y == f.h - 2,
        1 <= k <= 4,
        1 <= j <= 3,
    ensures
        1 <= f.pointer.x <= 7 ==> pointer_glyph(f) == Some(
            seq![' ', 'S', 't', 'a', 'r', 't', ' '][f.pointer.x - 1],
        ),
        f.pointer.x == f.w - 17 + 4 * (k - 1) + j && f.pointer.x < f.w - 3 ==> pointer_glyph(f)
            == Some(
            if j == 2 {
                (48 + k) as char
            } else {
                ' '
            },
        ),
{
    reveal_strlit(" Start ");
    assert(" Start "@ =~= seq![' ', 'S', 't', 'a', 'r', 't', ' ']);
    lemma_tabs_fit(f.apps, f.desktop, f.h, f.tab_scroll);
}

} // verus!

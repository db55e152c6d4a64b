//! The inside of the help window.
use vstd::prelude::*;
use crate::help::{rows_count, wrapped, wrapped_count, wrapped_rows, HelpModel, HelpState};
use crate::num::{max_len, min_len};
use crate::text::{chars_of, texts};
use crate::ui::ansi::{move_text, move_to};
use crate::ui::panel::{push_padded, put_padded};
use crate::ui::window::Window;
use crate::ui::{draw_scrollbar, left_over, scrollbar_drawn};

verus! {

/// The first `n` rows of the help, from row `from` on.
pub open spec fn help_rows(
    t: Seq<char>,
    x: int,
    y: int,
    rows: Seq<Seq<char>>,
    from: int,
    n: int,
    width: int,
) -> Seq<char>
    decreases n,
{
    if n <= 0 {
        t
    } else {
        let t = help_rows(t, x, y, rows, from, n - 1, width) + move_text(x, y + n - 1);
        let i = from + n - 1;
        put_padded(
            t,
            if i < rows.len() {
                rows[i]
            } else {
                Seq::empty()
            },
            width,
        )
    }
}

/// The screen with the help in a window.
pub open spec fn help_drawn(t: Seq<char>, win: Window, m: HelpModel) -> Seq<char> {
    let (x, y) = (win.position_x as int, win.position_y as int);
    let (inner, height) = (win.inner_w(), win.inner_h());
    let rows = wrapped_rows(m.lines, inner);
    let most = left_over(rows.len() as int, height);
    let scroll = if m.scroll < most {
        m.scroll as int
    } else {
        most
    };
    if inner == 0 || height == 0 {
        t
    } else {
        let t = help_rows(t, x + 1, y + 1, rows, scroll, height, inner);
        if most > 0 {
            scrollbar_drawn(
                t,
                (x + inner) as u16,
                (y + 1) as u16,
                (y + height) as u16,
                rows.len() as usize,
                height as usize,
                scroll as usize,
            )
        } else {
            t
        }
    }
}

/// Draws the help, wrapped to the window.
pub fn draw_help_content(out: &mut String, win: &Window, state: &HelpState)
    requires
        win.width > 2 && win.height > 2 ==> win.fits(),
    ensures
        final(out)@ == help_drawn(old(out)@, *win, state@),
{
    let lx: u16 = win.position_x;
    let ty: u16 = win.position_y;
    let inner: usize = win.visible_w();
    let height: usize = win.visible_h();
    if inner == 0 || height == 0 {
        return;
    }
    let rows = wrapped(&state.lines, inner);
    let ghost shown = texts(rows@);
    let total: usize = rows.len();
    let most: usize = total.saturating_sub(height);
    let scroll: usize = min_len(state.scroll, most);
    let mut i: usize = 0;
    while i < height
        invariant
            i <= height,
            win.fits(),
            lx == win.position_x,
            ty == win.position_y,
            inner == win.inner_w(),
            height == win.inner_h(),
            0 < inner,
            total == rows@.len(),
            shown == texts(rows@),
            scroll == 0 || scroll + height <= total,
            out@ == help_rows(
                old(out)@,
                lx + 1,
                ty + 1,
                shown,
                scroll as int,
                i as int,
                inner as int,
            ),
        decreases height - i,
    {
        move_to(out, lx + 1, ty + 1 + i as u16);
        if scroll + i < total {
            assert(shown[scroll + i] == rows@[scroll + i]@);
            push_padded(out, &chars_of(rows[scroll + i].as_str()), inner);
        } else {
            let none: Vec<char> = Vec::new();
            push_padded(out, &none, inner);
        }
        i = i + 1;
    }
    if most > 0 {
        draw_scrollbar(
            out,
            lx + inner as u16,
            ty + 1,
            ty + height as u16,
            total,
            height,
            scroll,
        );
    }
}

/// How far the help can be scrolled in a window of that size.
pub open spec fn help_limit(lines: Seq<Seq<char>>, inner_w: usize, inner_h: usize) -> usize {
    let all = rows_count(lines, max_len(inner_w, 1) as nat);
    left_over(
        if all <= usize::MAX {
            all as int
        } else {
            usize::MAX as int
        },
        inner_h as int,
    ) as usize
}

pub fn help_max_scroll(lines: &[String], inner_w: usize, inner_h: usize) -> (n: usize)
    ensures
        n == help_limit(texts(lines@), inner_w, inner_h),
{
    wrapped_count(lines, inner_w).saturating_sub(inner_h)
}

} // verus!

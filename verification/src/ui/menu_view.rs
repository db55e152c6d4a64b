//! The inside of the start menu.
use vstd::prelude::*;
use vstd::string::*;
use crate::menu::{MenuModel, MenuState};
use crate::text::{chars_of, push_repeated, repeated};
use crate::ui::ansi::{move_text, move_to};
use crate::ui::panel::{push_padded, put_padded};
use crate::ui::window::Window;

verus! {

/// A text cut to `max` characters, with an ellipsis where some are lost.
pub open spec fn fitted(s: Seq<char>, max: int) -> Seq<char> {
    if s.len() <= max {
        s
    } else if max <= 1 {
        seq!['…']
    } else {
        s.take(max - 1).push('…')
    }
}

fn fit_width(v: Vec<char>, max: usize) -> (r: Vec<char>)
    ensures
        r@ == fitted(v@, max as int),
{
    if v.len() <= max {
        return v;
    }
    let n: usize = max.saturating_sub(1);
    let mut r = crate::text::slice_chars(&v, 0, n);
    r.push('…');
    assert(r@ =~= fitted(v@, max as int));
    r
}

/// What the menu says where it has no entries.
pub open spec fn empty_hint() -> Seq<char> {
    "  (sem itens — edite ~/.manto/menu.json)"@
}

/// The row of an entry, marked where it is selected.
pub open spec fn entry_text(label: Seq<char>, selected: bool, width: int) -> Seq<char> {
    fitted(
        seq![
            if selected {
                '▶'
            } else {
                ' '
            },
            ' ',
        ] + label,
        width,
    )
}

/// The first `n` rows of the menu.
pub open spec fn menu_rows(t: Seq<char>, x: int, y: int, m: MenuModel, n: int, width: int) -> Seq<
    char,
>
    decreases n,
{
    if n <= 0 {
        t
    } else {
        let t = menu_rows(t, x, y, m, n - 1, width) + move_text(x, y + n - 1);
        let i = m.scroll + n - 1;
        if i < m.items.len() {
            let text = entry_text(m.items[i].label, i == m.selected, width);
            if i == m.selected {
                put_padded(t + "\u{1b}[7m"@, text, width) + "\u{1b}[0m"@
            } else {
                put_padded(t, text, width)
            }
        } else {
            t + repeated(' ', width)
        }
    }
}

/// The screen with the start menu in a window.
pub open spec fn menu_drawn(t: Seq<char>, win: Window, m: MenuModel) -> Seq<char> {
    let (x, y) = (win.position_x as int, win.position_y as int);
    let (inner, height) = (win.inner_w(), win.inner_h());
    if inner == 0 || height == 0 {
        t
    } else if m.items.len() == 0 {
        put_padded(t + move_text(x + 1, y + 1), fitted(empty_hint(), inner), inner)
    } else {
        menu_rows(t, x + 1, y + 1, m, height, inner)
    }
}

fn entry_row(label: &str, selected: bool, width: usize) -> (r: Vec<char>)
    ensures
        r@ == entry_text(label@, selected, width as int),
{
    let mut v: Vec<char> = Vec::new();
    v.push(
        if selected {
            '▶'
        } else {
            ' '
        },
    );
    v.push(' ');
    let mut more = chars_of(label);
    v.append(&mut more);
    assert(v@ =~= seq![
        if selected {
            '▶'
        } else {
            ' '
        },
        ' ',
    ] + label@);
    fit_width(v, width)
}

/// Draws the entries of the start menu.
pub fn draw_menu_content(out: &mut String, win: &Window, state: &MenuState)
    requires
        win.width >= 2,
        win.height >= 2,
        win.fits(),
    ensures
        final(out)@ == menu_drawn(old(out)@, *win, state@),
{
    let lx: u16 = win.position_x;
    let ty: u16 = win.position_y;
    let inner: usize = win.visible_w();
    let height: usize = win.visible_h();
    if inner == 0 || height == 0 {
        return;
    }
    let total: usize = state.items.len();
    if total == 0 {
        move_to(out, lx + 1, ty + 1);
        let hint = fit_width(chars_of("  (sem itens — edite ~/.manto/menu.json)"), inner);
        push_padded(out, &hint, inner);
        return;
    }
    let mut i: usize = 0;
    while i < height
        invariant
            i <= height,
            win.fits(),
            lx == win.position_x,
            ty == win.position_y,
            inner == win.inner_w(),
            height == win.inner_h(),
            0 < inner,
            total == state.items@.len(),
            out@ == menu_rows(old(out)@, lx + 1, ty + 1, state@, i as int, inner as int),
        decreases height - i,
    {
        move_to(out, lx + 1, ty + 1 + i as u16);
        if state.scroll < total && i < total - state.scroll {
            let k: usize = state.scroll + i;
            let selected = k == state.selected;
            assert(state@.items[k as int].label == state.items@[k as int].label@);
            let text = entry_row(state.items[k].label.as_str(), selected, inner);
            if selected {
                out.append("\u{1b}[7m");
                push_padded(out, &text, inner);
                out.append("\u{1b}[0m");
            } else {
                push_padded(out, &text, inner);
            }
        } else {
            push_repeated(out, ' ', inner);
        }
        i = i + 1;
    }
}

} // verus!

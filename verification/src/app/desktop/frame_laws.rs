//! What the selection covers and copies, and how the windows are fitted to what they hold.
use vstd::prelude::*;
use crate::app::desktop::mouse_laws::no_overlay;
use crate::app::desktop::window_laws::plain;
use crate::app::desktop::{terminal_of, DeskModel, EffectModel};
use crate::app::AppModel;
use crate::os::Key;
use crate::wm::{synced, told_size, ModeModel};

verus! {

/// Shift with an arrow extends the selection by a cell that way, from the pointer where
/// there is none yet; the corner that it began at stays.
pub proof fn lemma_selection_keys(d: DeskModel, key: Key, now: u64)
    requires
        key == Key::ShiftUp || key == Key::ShiftDown || key == Key::ShiftLeft || key
            == Key::ShiftRight,
        d.mode is Normal,
        no_overlay(d),
        plain(d, key),
        d.sel is None ==> d.sel_pos is None,
        d.sel is Some ==> d.sel_pos is Some,
    ensures
        ({
            let s = d.key_handled(key, now).0;
            let (x, y) = match d.sel_pos {
                Some(p) => p,
                None => (d.pointer.x, d.pointer.y),
            };
            &&& s.sel is Some && s.sel_pos is Some
            &&& d.sel matches Some(b) ==> (s.sel->0).anchor == b.anchor
            &&& d.sel is None ==> (s.sel->0).anchor == (d.pointer.y as usize, d.pointer.x as usize)
            &&& key == Key::ShiftRight && x + 1 < d.size.0 ==> (s.sel->0).extent == (
                y as usize,
                (x + 1) as usize,
            ) || y >= d.size.1
            &&& key == Key::ShiftLeft && 0 < x < d.size.0 && y < d.size.1 ==> (s.sel->0).extent == (
                y as usize,
                (x - 1) as usize,
            )
            &&& key == Key::ShiftDown && y + 1 < d.size.1 && x < d.size.0 ==> (s.sel->0).extent == (
                (y + 1) as usize,
                x as usize,
            )
            &&& key == Key::ShiftUp && 0 < y < d.size.1 && x < d.size.0 ==> (s.sel->0).extent == (
                (y - 1) as usize,
                x as usize,
            )
            &&& s.apps == d.apps
        }),
{
}

/// Enter, and Ctrl with C, copy the selection: the text of the cells between its corners
/// goes out, and the selection is gone. Escape gives it up, and nothing goes out.
pub proof fn lemma_selection_copied(d: DeskModel, now: u64)
    requires
        d.mode is Normal,
        no_overlay(d),
        plain(d, Key::Enter),
        plain(d, Key::CtrlC),
        plain(d, Key::Escape),
        d.sel is Some,
    ensures
        ({
            let (a, b) = ((d.sel->0).anchor, (d.sel->0).extent);
            let top = if a.0 <= b.0 {
                a.0 as int
            } else {
                b.0 as int
            };
            let bottom = if a.0 <= b.0 {
                b.0 as int
            } else {
                a.0 as int
            };
            let left = if a.1 <= b.1 {
                a.1 as int
            } else {
                b.1 as int
            };
            let right = if a.1 <= b.1 {
                b.1 as int
            } else {
                a.1 as int
            };
            let text = d.screen.box_text(left, top, right, bottom);
            let (s, t) = (d.key_handled(Key::Enter, now).0, d.key_handled(Key::CtrlC, now).0);
            let e = d.key_handled(Key::Escape, now).0;
            &&& s.outbox == d.outbox.push(EffectModel::Copy { text })
            &&& t.outbox == d.outbox.push(EffectModel::Copy { text })
            &&& s.clipboard == text && t.clipboard == text
            &&& s.sel is None && t.sel is None
            &&& e.sel is None && e.outbox == d.outbox
        }),
{
}

/// The grid of a program has the size of the inside of its window, and its session is told
/// so.
pub proof fn lemma_grid_fitted(a: AppModel)
    requires
        a.window() is Some,
        a.terminal is Some,
        (a.terminal->0).emulator is Some,
        (a.window()->0).width >= 4,
        (a.window()->0).height >= 4,
    ensures
        ({
            let b = synced(a);
            let w = a.window()->0;
            let m = (b.terminal->0).emulator->0;
            &&& m.cols == w.width - 2
            &&& m.rows == w.height - 2
            &&& (a.terminal->0).session matches Some(s) ==> told_size(a) == Some(
                (s.id, (w.width - 2) as u16, (w.height - 2) as u16),
            )
            &&& (b.window()->0).position_x == w.position_x && (b.window()->0).position_y
                == w.position_y
            &&& (b.window()->0).width == w.width && (b.window()->0).height == w.height
        }),
{
}

/// Fitting the windows a second time changes none of the grids.
pub proof fn lemma_fitted_twice(a: AppModel)
    requires
        a.terminal is Some,
        (a.terminal->0).emulator is Some,
    ensures
        synced(synced(a)) == synced(a),
{
}

/// On a screen of another size the pointer keeps its distance from the last row, where
/// there is room for it, and its column; the windows stay, and nothing is selected.
pub proof fn lemma_screen_resized(d: DeskModel, size: (u16, u16))
    requires
        d.size.1 >= 3,
        1 <= d.pointer.y <= d.size.1 - 2,
        1 <= d.pointer.x <= size.0 - 2,
        size.1 > d.size.1 - d.pointer.y,
    ensures
        ({
            let s = d.resized(size);
            &&& s.size == size
            &&& s.pointer.x == d.pointer.x
            &&& size.1 - s.pointer.y == d.size.1 - d.pointer.y
            &&& s.apps == d.apps
            &&& s.sel is None
            &&& s.full_redraw
        }),
{
}

/// What is typed into the dock and the commands of the dock are shown while it is open, and
/// at no other time; a terminal that has the focus shows what is typed into it.
pub proof fn lemma_typed_line_shown(d: DeskModel, now: u64)
    ensures
        ({
            let f = d.frame(now);
            &&& d.mode is Typing ==> f.typing_input == Some((d.input, d.cursor)) && f.commands
                == d.commands && f.path == d.path
            &&& !(d.mode is Typing) ==> f.typing_input is None && f.commands.len() == 0
            &&& d.mode matches ModeModel::TerminalFocus { app_idx } ==> (terminal_of(
                d.apps,
                app_idx,
            ) matches Some(t) ==> f.focused == Some((app_idx, t.cmd_input, t.input_cursor)))
            &&& !(d.mode is TerminalFocus) ==> f.focused is None
            &&& f.apps == d.apps && f.pointer == d.pointer && f.selection == d.sel
            &&& f.w == d.size.0 && f.h == d.size.1 && f.desktop == d.desktop
        }),
{
}

} // verus!

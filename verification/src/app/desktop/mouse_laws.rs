//! What the mouse does: the wheel, presses on the frame of a window, and drags.
use vstd::prelude::*;
use vstd::utf8::encode_utf8;
use crate::app::desktop::window_laws::{larger, only_window, window_at};
use crate::app::desktop::{terminal_of, DeskModel, EffectModel};
use crate::app::terminal::{mouse_report, TermStateModel};
use crate::app::{AppModel, DisplayMode};
use crate::os::{Key, MouseAction, MouseButton, MouseEvent};
use crate::wm::{first_of, front, lemma_front, minimized, ModeModel};

verus! {

/// Whether the window of an application is on a desktop and at a cell.
pub open spec fn lies_at(a: AppModel, desktop: usize, x: int, y: int) -> bool {
    a.desktop == desktop && (a.window() matches Some(w) && {
        &&& w.position_x <= x < w.position_x + w.width
        &&& w.position_y <= y < w.position_y + w.height
    })
}

/// Whether window `i` is the one that is seen at a cell: of those there it is on the
/// highest layer, and on that the last.
pub open spec fn seen_at(d: DeskModel, i: usize, x: int, y: int) -> bool {
    &&& i < d.apps.len() <= usize::MAX
    &&& lies_at(d.apps[i as int], d.desktop, x, y)
    &&& forall|k: int|
        0 <= k < d.apps.len() && k != i && lies_at(#[trigger] d.apps[k], d.desktop, x, y) ==> {
            let (v, w) = (d.apps[k].window()->0, window_at(d, i));
            v.layer < w.layer || v.layer == w.layer && k < i
        }
}

/// Whether an event is at a cell inside the border of the screen.
pub open spec fn event_at(d: DeskModel, ev: MouseEvent, x: int, y: int) -> bool {
    &&& ev.x == x + 1
    &&& ev.y == y + 1
    &&& 1 <= x < d.size.0 - 1
    &&& 1 <= y < d.size.1 - 1
}

/// No application on the desktop that is shown is a menu or a help.
pub open spec fn no_overlay(d: DeskModel) -> bool {
    d.menu_at() is None && d.help_at() is None
}

/// The window that is seen at a cell is the one that is found there.
proof fn lemma_seen_is_front(d: DeskModel, i: usize, x: u16, y: u16)
    requires
        seen_at(d, i, x as int, y as int),
    ensures
        front(d.apps, d.desktop, Some((x, y))) == Some(i),
{
    lemma_front(d.apps, d.desktop, Some((x, y)), d.apps.len() as int);
}

/// What terminal `i` shows is `k` lines above what it showed.
pub open spec fn shows_further_back(d: DeskModel, s: DeskModel, i: usize, k: int) -> bool {
    &&& terminal_of(d.apps, i) is Some && terminal_of(s.apps, i) is Some
    &&& terminal_of(s.apps, i)->0.panel_scroll == terminal_of(d.apps, i)->0.panel_scroll + k
    &&& only_panel(d, s, i)
}

/// Nothing changed in the applications but how far terminal `i` is scrolled.
pub open spec fn only_panel(d: DeskModel, s: DeskModel, i: usize) -> bool {
    let (t, u) = (d.apps[i as int].terminal->0, s.apps[i as int].terminal->0);
    &&& s.apps.len() == d.apps.len()
    &&& u == (TermStateModel { panel_scroll: u.panel_scroll, ..t })
    &&& s.apps[i as int].display == d.apps[i as int].display
    &&& forall|k: int| 0 <= k < d.apps.len() && k != i ==> #[trigger] s.apps[k] == d.apps[k]
}

// ── The wheel ────────────────────────────────────────────────────────────────

/// The wheel over a terminal: turned up, the terminal shows what is one line further
/// back; turned down, what is one line further on, to the last.
pub proof fn lemma_wheel_scrolls_terminal(
    d: DeskModel,
    i: usize,
    ev: MouseEvent,
    x: int,
    y: int,
    now: u64,
)
    requires
        d.in_program() is None,
        d.help_at() is None,
        ev.kind == MouseAction::Press,
        event_at(d, ev, x, y),
        seen_at(d, i, x, y),
        d.apps[i as int].terminal is Some,
    ensures
        ({
            let s = d.key_handled(Key::Mouse(ev), now).0;
            let at = terminal_of(d.apps, i)->0.panel_scroll;
            &&& ev.button == MouseButton::WheelUp && at < usize::MAX ==> shows_further_back(
                d,
                s,
                i,
                1,
            )
            &&& ev.button == MouseButton::WheelDown && at > 0 ==> shows_further_back(d, s, i, -1)
            &&& ev.button == MouseButton::WheelDown && at == 0 ==> s.apps == d.apps
        }),
{
    lemma_seen_is_front(d, i, x as u16, y as u16);
    let s = d.key_handled(Key::Mouse(ev), now).0;
    if terminal_of(d.apps, i)->0.panel_scroll == 0 && ev.button == MouseButton::WheelDown {
        assert(s.apps =~= d.apps);
    }
}

/// The wheel turned up and down again over a terminal leaves it as it was.
#[verifier::spinoff_prover]
#[verifier::rlimit(50)]
pub proof fn lemma_wheel_there_and_back(
    d: DeskModel,
    i: usize,
    up: MouseEvent,
    down: MouseEvent,
    x: int,
    y: int,
    now: u64,
)
    requires
        d.mode is Normal,
        d.help_at() is None,
        up.kind == MouseAction::Press,
        up.button == MouseButton::WheelUp,
        down.kind == MouseAction::Press,
        down.button == MouseButton::WheelDown,
        event_at(d, up, x, y),
        event_at(d, down, x, y),
        seen_at(d, i, x, y),
        d.apps[i as int].terminal is Some,
        terminal_of(d.apps, i)->0.panel_scroll < usize::MAX,
    ensures
        ({
            let s = d.key_handled(Key::Mouse(up), now).0;
            s.help_at() is None ==> s.key_handled(Key::Mouse(down), now).0.apps == d.apps
        }),
{
    lemma_seen_is_front(d, i, x as u16, y as u16);
    let s = d.key_handled(Key::Mouse(up), now).0;
    assert forall|k: int| 0 <= k < s.apps.len() implies lies_at(s.apps[k], s.desktop, x, y)
        == lies_at(d.apps[k], d.desktop, x, y) by {}
    assert(seen_at(s, i, x, y)) by {
        assert forall|k: int|
            0 <= k < s.apps.len() && k != i && lies_at(#[trigger] s.apps[k], s.desktop, x, y) implies {
            let (v, w) = (s.apps[k].window()->0, window_at(s, i));
            v.layer < w.layer || v.layer == w.layer && k < i
        } by {
            assert(s.apps[k] == d.apps[k]);
        }
    }
    lemma_seen_is_front(s, i, x as u16, y as u16);
    if s.help_at() is None {
        assert(s.key_handled(Key::Mouse(down), now).0.apps =~= d.apps);
    }
}

/// The page keys do to the terminal that has the focus what the wheel does to the one
/// under the pointer.
pub proof fn lemma_wheel_is_page_key(
    d: DeskModel,
    f: DeskModel,
    i: usize,
    ev: MouseEvent,
    x: int,
    y: int,
    now: u64,
)
    requires
        d.in_program() is None,
        d.help_at() is None,
        ev.kind == MouseAction::Press,
        event_at(d, ev, x, y),
        seen_at(d, i, x, y),
        d.apps[i as int].terminal is Some,
        f == (DeskModel { mode: ModeModel::TerminalFocus { app_idx: i }, ..d }),
        d.config.resolved(Key::PageUp) is None,
        d.config.resolved(Key::PageDown) is None,
    ensures
        ev.button == MouseButton::WheelUp ==> f.key_handled(Key::PageUp, now).0.apps
            == d.key_handled(Key::Mouse(ev), now).0.apps,
        ev.button == MouseButton::WheelDown ==> f.key_handled(Key::PageDown, now).0.apps
            == d.key_handled(Key::Mouse(ev), now).0.apps,
{
    lemma_seen_is_front(d, i, x as u16, y as u16);
}

/// The wheel where no window is scrolls the panel of the dock: up further back.
pub proof fn lemma_wheel_scrolls_dock(d: DeskModel, ev: MouseEvent, x: int, y: int, now: u64)
    requires
        d.in_program() is None,
        d.help_at() is None,
        d.apps.len() <= usize::MAX,
        ev.kind == MouseAction::Press,
        event_at(d, ev, x, y),
        forall|k: int|
            0 <= k < d.apps.len() ==> !lies_at(#[trigger] d.apps[k], d.desktop, x, y),
    ensures
        ({
            let s = d.key_handled(Key::Mouse(ev), now).0;
            let at = d.panel_scroll;
            &&& ev.button == MouseButton::WheelUp || ev.button == MouseButton::WheelDown ==> s.apps
                == d.apps
            &&& ev.button == MouseButton::WheelUp && d.commands.len() > 0 && at < usize::MAX
                ==> s.panel_scroll == at + 1
            &&& ev.button == MouseButton::WheelDown && d.commands.len() > 0 && at > 0
                ==> s.panel_scroll == at - 1
            &&& d.commands.len() == 0 && (ev.button == MouseButton::WheelUp || ev.button
                == MouseButton::WheelDown) ==> s.panel_scroll == at
        }),
{
    lemma_front(d.apps, d.desktop, Some((x as u16, y as u16)), d.apps.len() as int);
}

/// The wheel with the pointer on the rail, where there are more tabs than are shown:
/// turned down, the tabs move on by one to the last; turned up, back by one to the
/// first.
pub proof fn lemma_wheel_turns_rail(d: DeskModel)
    requires
        d.size.1 >= 12,
        d.pointer.x == d.size.0 - 1,
        1 <= d.pointer.y <= d.size.1 - 4,
        d.size.1 - 4 < minimized(d.apps, d.desktop).len() * 6,
        minimized(d.apps, d.desktop).len() < 0x10000,
    ensures
        ({
            let (s, t) = (d.wheeled(true).0, d.wheeled(false).0);
            let at = d.tab_scroll;
            &&& s.apps == d.apps && t.apps == d.apps
            &&& s.panel_scroll == d.panel_scroll && t.panel_scroll == d.panel_scroll
            &&& at > 0 ==> s.tab_scroll == at - 1
            &&& at == 0 ==> s.tab_scroll == 0
            &&& at < minimized(d.apps, d.desktop).len() - (d.size.1 - 4) / 6 ==> t.tab_scroll == at
                + 1
            &&& t.tab_scroll <= minimized(d.apps, d.desktop).len() - (d.size.1 - 4) / 6
        }),
{
}

/// The wheel over the help: turned up it scrolls on by a row, turned down back by one,
/// never past its last row.
pub proof fn lemma_wheel_scrolls_help(
    d: DeskModel,
    i: usize,
    ev: MouseEvent,
    x: int,
    y: int,
    now: u64,
)
    requires
        d.in_program() is None,
        d.help_at() == Some(i),
        i < d.apps.len(),
        d.apps[i as int].help is Some,
        d.apps[i as int].window() is Some,
        ev.kind == MouseAction::Press,
        event_at(d, ev, x, y),
        window_at(d, i).position_x < x < window_at(d, i).position_x + window_at(d, i).width - 1,
        window_at(d, i).position_y < y < window_at(d, i).position_y + window_at(d, i).height - 1,
    ensures
        ({
            let s = d.key_handled(Key::Mouse(ev), now).0;
            let (at, to) = (d.apps[i as int].help->0.scroll, s.apps[i as int].help->0.scroll);
            let last = d.help_room(i).1;
            &&& ev.button == MouseButton::WheelUp && at < last ==> to == at + 1
            &&& ev.button == MouseButton::WheelUp && at >= last ==> to == last
            &&& ev.button == MouseButton::WheelDown && 0 < at <= last ==> to == at - 1
            &&& ev.button == MouseButton::WheelDown && at == 0 ==> to == 0
        }),
{
}

// ── The frame of a window ────────────────────────────────────────────────────

/// Whether the left button goes down at a cell of window `i`, and nothing but the
/// window takes it.
pub open spec fn pressed_on(d: DeskModel, i: usize, ev: MouseEvent, x: int, y: int) -> bool {
    &&& d.in_program() is None
    &&& no_overlay(d)
    &&& no_menu(d)
    &&& ev.kind == MouseAction::Press
    &&& ev.button == MouseButton::Left
    &&& event_at(d, ev, x, y)
    &&& x < d.size.0 - 3
    &&& y < d.size.1 - 2
    &&& seen_at(d, i, x, y)
    &&& window_at(d, i).width >= 5 && window_at(d, i).height >= 3
    &&& d.apps[i as int].terminal is Some ==> window_at(d, i).height >= 5
}

/// No application is a menu.
pub open spec fn no_menu(d: DeskModel) -> bool {
    forall|k: int| 0 <= k < d.apps.len() ==> !(#[trigger] d.apps[k]).is_menu
}

proof fn lemma_no_first(a: Seq<AppModel>, desktop: usize, n: int)
    requires
        0 <= n <= a.len(),
        forall|k: int| 0 <= k < a.len() ==> !(#[trigger] a[k]).is_menu,
    ensures
        first_of(a, desktop, false, n) is None,
    decreases n,
{
    if n > 0 {
        lemma_no_first(a, desktop, n - 1);
    }
}

/// A press on the upper left corner of a window minimises it.
#[verifier::spinoff_prover]
#[verifier::rlimit(50)]
pub proof fn lemma_corner_minimises(d: DeskModel, i: usize, ev: MouseEvent, x: int, y: int, now: u64)
    requires
        pressed_on(d, i, ev, x, y),
        d.apps[i as int].display is Windowed,
        window_at(d, i).minimizable,
        x == window_at(d, i).position_x,
        y == window_at(d, i).position_y,
    ensures
        ({
            let s = d.key_handled(Key::Mouse(ev), now).0;
            &&& only_window(d, s, i)
            &&& s.apps[i as int].display == DisplayMode::Minimized(window_at(d, i))
        }),
{
    lemma_seen_is_front(d, i, x as u16, y as u16);
    lemma_no_first(d.apps, d.desktop, d.apps.len() as int);
}

/// A press on the upper right corner of a window closes it: it is gone, and the others
/// stay as they are.
#[verifier::spinoff_prover]
#[verifier::rlimit(50)]
pub proof fn lemma_corner_closes(d: DeskModel, i: usize, ev: MouseEvent, x: int, y: int, now: u64)
    requires
        pressed_on(d, i, ev, x, y),
        window_at(d, i).closable,
        x == window_at(d, i).position_x + window_at(d, i).width - 1,
        y == window_at(d, i).position_y,
    ensures
        d.key_handled(Key::Mouse(ev), now).0.apps == d.apps.remove(i as int),
{
    lemma_seen_is_front(d, i, x as u16, y as u16);
    lemma_no_first(d.apps, d.desktop, d.apps.len() as int);
    assert(d.apps.update(i as int, d.apps[i as int]) =~= d.apps);
    assert(d.key_handled(Key::Mouse(ev), now).0.apps =~= d.apps.remove(i as int));
}

/// A press on the lower right corner of a window begins to size it.
#[verifier::spinoff_prover]
#[verifier::rlimit(50)]
pub proof fn lemma_corner_sizes(d: DeskModel, i: usize, ev: MouseEvent, x: int, y: int, now: u64)
    requires
        pressed_on(d, i, ev, x, y),
        d.apps[i as int].display is Windowed,
        window_at(d, i).resizable,
        x == window_at(d, i).position_x + window_at(d, i).width - 1,
        y == window_at(d, i).position_y + window_at(d, i).height - 1,
    ensures
        ({
            let s = d.key_handled(Key::Mouse(ev), now).0;
            &&& s.apps == d.apps
            &&& s.mode == (ModeModel::Resizing { app_idx: i, edit: None })
        }),
{
    lemma_seen_is_front(d, i, x as u16, y as u16);
    lemma_no_first(d.apps, d.desktop, d.apps.len() as int);
    assert(d.apps.update(i as int, d.apps[i as int]) =~= d.apps);
}

/// A press on the title of a window raises it, behind all others in the list, and it
/// hangs at the pointer by the cell that was pressed.
#[verifier::spinoff_prover]
#[verifier::rlimit(50)]
pub proof fn lemma_title_moves(d: DeskModel, i: usize, ev: MouseEvent, x: int, y: int, now: u64)
    requires
        pressed_on(d, i, ev, x, y),
        d.apps[i as int].display is Windowed,
        window_at(d, i).draggable,
        d.last_space is None,
        window_at(d, i).position_x < x < window_at(d, i).position_x + window_at(d, i).width - 1,
        y == window_at(d, i).position_y,
    ensures
        ({
            let s = d.key_handled(Key::Mouse(ev), now).0;
            let last = (d.apps.len() - 1) as usize;
            &&& s.mode == (ModeModel::Moving {
                app_idx: last,
                offset_x: (x - window_at(d, i).position_x) as u16,
            })
            &&& s.apps.len() == d.apps.len()
            &&& s.apps[last as int].title == d.apps[i as int].title
            &&& s.apps[last as int].terminal == d.apps[i as int].terminal
            &&& window_at(s, last).position_x == window_at(d, i).position_x
            &&& window_at(s, last).position_y == window_at(d, i).position_y
            &&& window_at(s, last).width == window_at(d, i).width
            &&& window_at(s, last).height == window_at(d, i).height
            &&& s.pointer.x == x && s.pointer.y == y
        }),
{
    lemma_seen_is_front(d, i, x as u16, y as u16);
    lemma_no_first(d.apps, d.desktop, d.apps.len() as int);
    assert(d.apps.update(i as int, d.apps[i as int]) =~= d.apps);
}

/// The button that goes up at a cell ends the sizing of a window: it reaches from where
/// it is to that cell, and is no smaller than the least window.
pub proof fn lemma_release_sizes(d: DeskModel, i: usize, ev: MouseEvent, x: int, y: int, now: u64)
    requires
        ev.kind == MouseAction::Release,
        event_at(d, ev, x, y),
        d.mode is Resizing,
        d.mode->Resizing_app_idx == i,
        !d.mouse_selecting,
        i < d.apps.len(),
        d.apps[i as int].window() is Some,
        window_at(d, i).position_x <= x,
        window_at(d, i).position_y <= y,
    ensures
        ({
            let s = d.key_handled(Key::Mouse(ev), now).0;
            let (v, w) = (window_at(d, i), window_at(s, i));
            &&& s.mode is Normal
            &&& only_window(d, s, i)
            &&& w.position_x == v.position_x && w.position_y == v.position_y
            &&& w.width == larger(x - v.position_x + 1, 5)
            &&& w.height == larger(y - v.position_y + 1, 3)
        }),
{
}

/// The button that goes up ends the moving of a window, which stays as it is.
pub proof fn lemma_release_drops(d: DeskModel, ev: MouseEvent, now: u64)
    requires
        ev.kind == MouseAction::Release,
        d.mode is Moving,
        !d.mouse_selecting,
    ensures
        d.key_handled(Key::Mouse(ev), now).0.mode is Normal,
        d.key_handled(Key::Mouse(ev), now).0.apps == d.apps,
{
}

/// The right button raises the window under it.
pub proof fn lemma_right_raises(d: DeskModel, i: usize, ev: MouseEvent, x: int, y: int, now: u64)
    requires
        d.in_program() is None,
        ev.kind == MouseAction::Press,
        ev.button == MouseButton::Right,
        event_at(d, ev, x, y),
        seen_at(d, i, x, y),
        d.apps[i as int].display is Windowed,
    ensures
        ({
            let s = d.key_handled(Key::Mouse(ev), now).0;
            let last = d.apps.len() - 1;
            &&& s.apps.len() == d.apps.len()
            &&& s.apps[last].title == d.apps[i as int].title
            &&& s.apps[last].terminal == d.apps[i as int].terminal
            &&& s.mode is Normal
        }),
{
    lemma_seen_is_front(d, i, x as u16, y as u16);
}

// ── Selecting ────────────────────────────────────────────────────────────────

/// The left button dragged two cells or more from where it went down selects the box
/// between the two cells.
pub proof fn lemma_drag_selects_box(
    d: DeskModel,
    ev: MouseEvent,
    from: (u16, u16),
    x: int,
    y: int,
    now: u64,
)
    requires
        d.mode is Normal,
        d.mouse_down == Some(from),
        ev.kind == MouseAction::Drag,
        ev.button == MouseButton::Left,
        ev.x == x + 1 >= 1,
        ev.y == y + 1 >= 1,
        x >= from.0 + 2 || x + 2 <= from.0 || y >= from.1 + 2 || y + 2 <= from.1 || (x != from.0
            && y != from.1),
    ensures
        ({
            let s = d.key_handled(Key::Mouse(ev), now).0;
            &&& s.sel is Some
            &&& (s.sel->0).anchor == (from.1 as usize, from.0 as usize)
            &&& (s.sel->0).extent == (y as usize, x as usize)
            &&& s.apps == d.apps
            &&& s.mouse_selecting
        }),
{
}

/// A drag of less than two cells selects nothing.
pub proof fn lemma_near_drag(d: DeskModel, ev: MouseEvent, from: (u16, u16), now: u64)
    requires
        d.mode is Normal,
        d.mouse_down == Some(from),
        !d.mouse_selecting,
        ev.kind == MouseAction::Drag,
        ev.x >= 1,
        ev.y >= 1,
        (ev.x - 1 == from.0 && from.1 <= ev.y <= from.1 + 2) || (ev.y - 1 == from.1 && from.0
            <= ev.x <= from.0 + 2),
    ensures
        d.key_handled(Key::Mouse(ev), now).0.sel == d.sel,
{
}

/// Two presses on the title of a window within three tenths of a second maximise it: it
/// takes all of the screen between its border, the tabs and the status bar.
#[verifier::spinoff_prover]
#[verifier::rlimit(50)]
pub proof fn lemma_title_pressed_twice(
    d: DeskModel,
    i: usize,
    ev: MouseEvent,
    x: int,
    y: int,
    before: u64,
    now: u64,
)
    requires
        pressed_on(d, i, ev, x, y),
        d.apps[i as int].display is Windowed,
        window_at(d, i).draggable,
        d.last_space == Some(before),
        before <= now < before + 300,
        window_at(d, i).position_x < x < window_at(d, i).position_x + window_at(d, i).width - 1,
        y == window_at(d, i).position_y,
        d.size.0 >= 5,
    ensures
        ({
            let s = d.key_handled(Key::Mouse(ev), now).0;
            let w = window_at(s, i);
            &&& only_window(d, s, i)
            &&& s.apps[i as int].display is Maximized
            &&& w.position_x == 2 && w.position_y == 1
            &&& w.width == d.size.0 - 5 && w.height == d.size.1 - 4
        }),
{
    lemma_seen_is_front(d, i, x as u16, y as u16);
    lemma_no_first(d.apps, d.desktop, d.apps.len() as int);
    assert(d.apps.update(i as int, d.apps[i as int]) =~= d.apps);
}

/// A press inside a terminal that runs a program gives it the focus, in front of the
/// others.
#[verifier::spinoff_prover]
#[verifier::rlimit(50)]
pub proof fn lemma_program_pressed(d: DeskModel, i: usize, ev: MouseEvent, x: int, y: int, now: u64)
    requires
        pressed_on(d, i, ev, x, y),
        d.apps[i as int].terminal is Some,
        (d.apps[i as int].terminal->0).interactive,
        window_at(d, i).position_x < x < window_at(d, i).position_x + window_at(d, i).width - 1,
        window_at(d, i).position_y < y < window_at(d, i).position_y + window_at(d, i).height - 1,
    ensures
        ({
            let s = d.key_handled(Key::Mouse(ev), now).0;
            let last = (d.apps.len() - 1) as usize;
            &&& s.mode == (ModeModel::TerminalFocus { app_idx: last })
            &&& s.apps[last as int].title == d.apps[i as int].title
            &&& s.apps.len() == d.apps.len()
        }),
{
    lemma_seen_is_front(d, i, x as u16, y as u16);
}

// ── Programs ─────────────────────────────────────────────────────────────────

/// What the mouse does inside the window of a program that has the focus goes to its
/// session, as the program is told of the pointer; the desktop does nothing with it.
pub proof fn lemma_mouse_goes_to_program(d: DeskModel, i: usize, ev: MouseEvent, now: u64)
    requires
        d.mode == (ModeModel::TerminalFocus { app_idx: i }),
        i < d.apps.len(),
        d.apps[i as int].terminal is Some,
        (d.apps[i as int].terminal->0).interactive,
        (d.apps[i as int].terminal->0).session is Some,
        ((d.apps[i as int].terminal->0).session->0).real_pty,
        ev.x >= 1,
        ev.y >= 1,
        lies_at(d.apps[i as int], d.apps[i as int].desktop, ev.x - 1, ev.y - 1),
    ensures
        ({
            let s = d.key_handled(Key::Mouse(ev), now).0;
            &&& s.outbox == d.outbox.push(
                EffectModel::Write {
                    session: ((d.apps[i as int].terminal->0).session->0).id,
                    bytes: encode_utf8(mouse_report(ev)),
                },
            )
            &&& s.apps == d.apps && s.mode == d.mode && s.pointer == d.pointer
        }),
{
}

} // verus!

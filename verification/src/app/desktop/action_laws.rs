//! What the keys and the buttons of the desktop do: desktops, the dock, tabs, the focus,
//! the start menu and the help.
use vstd::prelude::*;
use crate::app::desktop::mouse_laws::{event_at, lies_at, no_overlay};
use crate::app::desktop::window_laws::{plain, window_at};
use crate::app::desktop::{AskModel, DeskModel, OutcomeModel};
use crate::app::AppModel;
use crate::config::Action;
use crate::os::{Key, MouseAction, MouseButton, MouseEvent};
use crate::ui::render::tab_under;
use crate::wm::{
    active, focus_target, front, lemma_front, lemma_tabs_fit, minimized, shows, tabs, visible,
    ModeModel,
};

verus! {

/// Whether the left button goes down at a cell where no window is.
pub open spec fn pressed_beside(d: DeskModel, ev: MouseEvent, x: int, y: int) -> bool {
    &&& d.in_program() is None
    &&& no_overlay(d)
    &&& ev.kind == MouseAction::Press
    &&& ev.button == MouseButton::Left
    &&& event_at(d, ev, x, y)
    &&& d.apps.len() <= usize::MAX
    &&& forall|k: int| 0 <= k < d.apps.len() ==> !lies_at(#[trigger] d.apps[k], d.desktop, x, y)
}

// ── The status bar ───────────────────────────────────────────────────────────

/// The buttons of the desktops stand side by side at the right end of the status bar, each
/// three columns wide and one apart: a press on one shows its desktop, with the windows as
/// they are.
pub proof fn lemma_desktop_button(d: DeskModel, ev: MouseEvent, k: int, j: int, now: u64)
    requires
        d.size.0 >= 18,
        1 <= k <= 4,
        1 <= j <= 3,
        pressed_beside(d, ev, d.size.0 - 17 + 4 * (k - 1) + j, d.size.1 - 2),
    ensures
        d.key_handled(Key::Mouse(ev), now).0.desktop == k,
        d.key_handled(Key::Mouse(ev), now).0.apps == d.apps,
{
    let (x, y) = (d.size.0 - 17 + 4 * (k - 1) + j, d.size.1 - 2);
    lemma_front(d.apps, d.desktop, Some((x as u16, y as u16)), d.apps.len() as int);
}

/// A press on ` Start ` asks for the start menu, one between it and the buttons opens the
/// dock for typing.
pub proof fn lemma_bar_pressed(d: DeskModel, ev: MouseEvent, x: int, now: u64)
    requires
        pressed_beside(d, ev, x, d.size.1 - 2),
        x < d.size.0 - 17,
    ensures
        1 <= x <= 7 ==> d.key_handled(Key::Mouse(ev), now).1 == OutcomeModel::Ask(AskModel::Menu),
        x >= 9 ==> d.key_handled(Key::Mouse(ev), now).0.mode is Typing && d.key_handled(
            Key::Mouse(ev),
            now,
        ).0.panel_scroll == 0,
        d.key_handled(Key::Mouse(ev), now).0.apps == d.apps,
{
    lemma_front(
        d.apps,
        d.desktop,
        Some((x as u16, (d.size.1 - 2) as u16)),
        d.apps.len() as int,
    );
}

/// `:` opens the dock, with the pointer on its input; Home takes the pointer there and no
/// more.
pub proof fn lemma_dock_keys(d: DeskModel, now: u64)
    requires
        d.mode is Normal,
        no_overlay(d),
        d.size.1 >= 2,
        plain(d, Key::Char(':')),
        plain(d, Key::Home),
    ensures
        ({
            let (s, t) = (d.key_handled(Key::Char(':'), now).0, d.key_handled(Key::Home, now).0);
            &&& s.mode is Typing && t.mode is Normal
            &&& s.pointer.x == 13 && s.pointer.y == d.size.1 - 2
            &&& t.pointer == s.pointer
            &&& s.apps == d.apps && t.apps == d.apps
            &&& s.input == d.input && s.cursor == d.cursor
        }),
{
}

// ── Tabs ─────────────────────────────────────────────────────────────────────

proof fn lemma_tab_found(list: Seq<(usize, u16, u16)>, p: crate::ui::pointer::Pointer, n: int, k: int)
    requires
        0 <= k < n <= list.len(),
        list[k].1 <= p.y < list[k].1 + list[k].2,
        forall|i: int, j: int|
            0 <= i < j < list.len() ==> (#[trigger] list[i]).1 + list[i].2 <= (
            #[trigger] list[j]).1,
    ensures
        tab_under(list, p, n) == Some(list[k]),
        tab_under(list, p, k) is None,
    decreases n,
{
    lemma_no_tab(list, p, k, k);
    if n - 1 > k {
        lemma_tab_found(list, p, n - 1, k);
    }
}

proof fn lemma_no_tab(list: Seq<(usize, u16, u16)>, p: crate::ui::pointer::Pointer, n: int, k: int)
    requires
        0 <= n <= k < list.len(),
        list[k].1 <= p.y,
        forall|i: int, j: int|
            0 <= i < j < list.len() ==> (#[trigger] list[i]).1 + list[i].2 <= (
            #[trigger] list[j]).1,
    ensures
        tab_under(list, p, n) is None,
    decreases n,
{
    if n > 0 {
        lemma_no_tab(list, p, n - 1, k);
        assert(list[n - 1].1 + list[n - 1].2 <= list[k].1);
    }
}

proof fn lemma_minimized_in_range(a: Seq<AppModel>, desktop: usize, k: int)
    requires
        a.len() <= usize::MAX,
        0 <= k < minimized(a, desktop).len(),
    ensures
        minimized(a, desktop)[k] < a.len(),
        a[minimized(a, desktop)[k] as int].display is Minimized,
        a[minimized(a, desktop)[k] as int].desktop == desktop,
    decreases a.len(),
{
    if k < minimized(a.drop_last(), desktop).len() {
        lemma_minimized_in_range(a.drop_last(), desktop, k);
    }
}

/// A press on a tab brings the window that it stands for back to where it was, in front of
/// the others and last in the list.
pub proof fn lemma_tab_brings_back(
    d: DeskModel,
    ev: MouseEvent,
    k: int,
    x: int,
    y: int,
    now: u64,
)
    requires
        pressed_beside(d, ev, x, y),
        x == d.size.0 - 3 || x == d.size.0 - 2,
        ({
            let list = tabs(d.apps, d.desktop, d.size.1, d.tab_scroll);
            0 <= k < list.len() && list[k].1 <= y < list[k].1 + list[k].2
        }),
    ensures
        ({
            let i = tabs(d.apps, d.desktop, d.size.1, d.tab_scroll)[k].0 as int;
            let s = d.key_handled(Key::Mouse(ev), now).0;
            let (a, b) = (d.apps[i], s.apps[d.apps.len() - 1]);
            &&& i == minimized(d.apps, d.desktop)[d.tab_scroll + k]
            &&& s.apps.len() == d.apps.len()
            &&& b.title == a.title && b.terminal == a.terminal && b.desktop == a.desktop
            &&& b.display is Windowed
            &&& a.display->Minimized_0.position_x == b.display->Windowed_0.position_x
            &&& a.display->Minimized_0.position_y == b.display->Windowed_0.position_y
            &&& a.display->Minimized_0.width == b.display->Windowed_0.width
            &&& a.display->Minimized_0.height == b.display->Windowed_0.height
        }),
{
    let list = tabs(d.apps, d.desktop, d.size.1, d.tab_scroll);
    lemma_front(d.apps, d.desktop, Some((x as u16, y as u16)), d.apps.len() as int);
    lemma_tabs_fit(d.apps, d.desktop, d.size.1, d.tab_scroll);
    let p = crate::ui::pointer::Pointer { x: x as u16, y: y as u16 };
    lemma_tab_found(list, p, list.len() as int, k);
    lemma_minimized_in_range(d.apps, d.desktop, d.tab_scroll + k);
}

// ── The focus ────────────────────────────────────────────────────────────────

/// Whether application `k` has a window on the desktop that is shown.
pub open spec fn has_window(d: DeskModel, k: int) -> bool {
    0 <= k < d.apps.len() && d.apps[k].desktop == d.desktop && d.apps[k].window() is Some
}

proof fn lemma_visible(a: Seq<AppModel>, desktop: usize)
    requires
        a.len() <= usize::MAX,
    ensures
        forall|j: int|
            0 <= j < visible(a, desktop).len() ==> (#[trigger] visible(a, desktop)[j]) < a.len()
                && shows(a[visible(a, desktop)[j] as int], desktop, None),
        forall|i: int, j: int|
            0 <= i < j < visible(a, desktop).len() ==> (#[trigger] visible(a, desktop)[i]) < (
            #[trigger] visible(a, desktop)[j]),
        forall|k: int|
            0 <= k < a.len() && shows(#[trigger] a[k], desktop, None) ==> visible(
                a,
                desktop,
            ).contains(k as usize),
    decreases a.len(),
{
    if a.len() > 0 {
        let f = a.drop_last();
        lemma_visible(f, desktop);
        let (v, w) = (visible(f, desktop), visible(a, desktop));
        assert forall|j: int| 0 <= j < w.len() implies (#[trigger] w[j]) < a.len() && shows(
            a[w[j] as int],
            desktop,
            None,
        ) by {
            if j < v.len() {
                assert(w[j] == v[j]);
            }
        }
        assert forall|i: int, j: int| 0 <= i < j < w.len() implies (#[trigger] w[i]) < (
        #[trigger] w[j]) by {
            assert(w[i] == v[i]);
            if j < v.len() {
                assert(w[j] == v[j]);
            }
        }
        assert forall|k: int| 0 <= k < a.len() && shows(#[trigger] a[k], desktop, None) implies w.contains(
            k as usize,
        ) by {
            if k < f.len() {
                assert(f[k] == a[k]);
                let j = choose|j: int| 0 <= j < v.len() && v[j] == k as usize;
                assert(w[j] == k as usize);
            } else {
                assert(w[w.len() - 1] == k as usize);
            }
        }
    }
}

/// The windows before the first `n` applications are the first of all windows.
proof fn lemma_visible_prefix(a: Seq<AppModel>, desktop: usize, n: int)
    requires
        0 <= n <= a.len() <= usize::MAX,
    ensures
        visible(a.take(n), desktop).len() <= visible(a, desktop).len(),
        visible(a, desktop).take(visible(a.take(n), desktop).len() as int) == visible(
            a.take(n),
            desktop,
        ),
    decreases a.len(),
{
    if n == a.len() {
        assert(a.take(n) =~= a);
        assert(visible(a, desktop).take(visible(a, desktop).len() as int) =~= visible(a, desktop));
    } else {
        lemma_visible_prefix(a.drop_last(), desktop, n);
        assert(a.drop_last().take(n) =~= a.take(n));
        let m = visible(a.take(n), desktop).len() as int;
        assert(visible(a, desktop).take(m) =~= visible(a.drop_last(), desktop).take(m));
    }
}

/// The focus goes on to the next window in the list, from the last to the first, and back
/// to the one before, from the first to the last: no window between is passed over.
pub proof fn lemma_focus_goes_round(d: DeskModel, i: usize)
    requires
        d.apps.len() <= usize::MAX,
        active(d.apps, d.mode, d.desktop) == Some(i),
        has_window(d, i as int),
        exists|k: int| k != i && has_window(d, k),
    ensures
        ({
            let next = focus_target(d.apps, d.mode, d.desktop, false);
            let last = focus_target(d.apps, d.mode, d.desktop, true);
            &&& next is Some && has_window(d, next->0 as int)
            &&& last is Some && has_window(d, last->0 as int)
            &&& if next->0 > i {
                forall|k: int| i < k < next->0 ==> !has_window(d, k)
            } else {
                forall|k: int| i < k || 0 <= k < next->0 ==> !has_window(d, k)
            }
            &&& if last->0 < i {
                forall|k: int| last->0 < k < i ==> !has_window(d, k)
            } else {
                forall|k: int| 0 <= k < i || last->0 < k ==> !has_window(d, k)
            }
        }),
{
    let a = d.apps;
    let v = visible(a, d.desktop);
    lemma_visible(a, d.desktop);
    lemma_visible_prefix(a, d.desktop, i as int);
    lemma_visible(a.take(i as int), d.desktop);
    let u = visible(a.take(i as int), d.desktop);
    let at = u.len() as int;
    // Window `i` stands behind the windows before it.
    assert(shows(a[i as int], d.desktop, None));
    let p = choose|p: int| 0 <= p < v.len() && v[p] == i;
    assert forall|j: int| 0 <= j < at implies v[j] < i by {
        assert(v[j] == v.take(at)[j]);
        assert(u[j] < a.take(i as int).len());
    }
    assert(p >= at);
    if p > at {
        let q = v[at] as int;
        assert(q < i);
        assert(a.take(i as int)[q] == a[q]);
        assert(shows(a.take(i as int)[q], d.desktop, None));
        assert(u.contains(q as usize));
        let j = choose|j: int| 0 <= j < u.len() && u[j] == q as usize;
        assert(v[j] == v.take(at)[j]);
        assert(false);
    }
    assert(v[at] == i);
    let k0 = choose|k: int| k != i && has_window(d, k);
    assert(shows(a[k0], d.desktop, None));
    let j0 = choose|j: int| 0 <= j < v.len() && v[j] == k0 as usize;
    assert(j0 != at);
    assert(v.len() >= 2);
    assert forall|k: int| has_window(d, k) implies exists|j: int|
        0 <= j < v.len() && #[trigger] v[j] == k by {
        assert(shows(a[k], d.desktop, None));
        assert(v.contains(k as usize));
    }
}

/// Shifting the focus takes a window to the front: the next one, or the one before.
pub proof fn lemma_focus_raises(d: DeskModel, backward: bool)
    requires
        focus_target(d.apps, d.mode, d.desktop, backward) is Some,
        (focus_target(d.apps, d.mode, d.desktop, backward)->0) < d.apps.len() <= usize::MAX,
        has_window(d, (focus_target(d.apps, d.mode, d.desktop, backward)->0) as int),
    ensures
        ({
            let i = focus_target(d.apps, d.mode, d.desktop, backward)->0 as int;
            let s = d.acted(
                if backward {
                    Action::FocusPrev
                } else {
                    Action::FocusNext
                },
            ).0;
            &&& front(s.apps, s.desktop, None) == Some((d.apps.len() - 1) as usize)
            &&& s.apps.last().title == d.apps[i].title
            &&& s.mode is Normal
        }),
{
    let i = focus_target(d.apps, d.mode, d.desktop, backward)->0 as int;
    crate::wm::lemma_raised_is_front(d.apps, i, d.desktop, None);
}

/// Ctrl with a digit takes the active window to that desktop and shows it there, in front;
/// the other windows stay where they are.
pub proof fn lemma_window_taken(d: DeskModel, i: usize, key: Key, to: usize, now: u64)
    requires
        (key, to) == (Key::Ctrl1, 1usize) || (key, to) == (Key::Ctrl2, 2usize) || (key, to) == (
            Key::Ctrl3,
            3usize,
        ) || (key, to) == (Key::Ctrl4, 4usize),
        plain(d, key),
        d.in_program() is None,
        no_overlay(d),
        active(d.apps, d.mode, d.desktop) == Some(i),
        i < d.apps.len() <= usize::MAX,
        d.apps[i as int].window() is Some,
        !d.apps[i as int].is_menu,
        to != d.desktop,
    ensures
        ({
            let s = d.key_handled(key, now).0;
            let last = d.apps.len() - 1;
            &&& s.desktop == to
            &&& s.apps.len() == d.apps.len()
            &&& s.apps[last].title == d.apps[i as int].title
            &&& s.apps[last].desktop == to
            &&& front(s.apps, s.desktop, None) == Some(last as usize)
            &&& forall|k: int| 0 <= k < i ==> #[trigger] s.apps[k] == d.apps[k]
            &&& forall|k: int| i <= k < last ==> #[trigger] s.apps[k] == d.apps[k + 1]
        }),
{
    let a = d.apps.update(i as int, d.apps[i as int].on(to));
    crate::wm::lemma_raised_is_front(a, i as int, to, None);
}

/// Beginning to size the active window puts the pointer on its lower right corner.
pub proof fn lemma_sizing_begins(d: DeskModel, i: usize)
    requires
        active(d.apps, d.mode, d.desktop) == Some(i),
        i < d.apps.len(),
        d.apps[i as int].display is Windowed,
        window_at(d, i).resizable,
        window_at(d, i).width >= 1,
        window_at(d, i).height >= 1,
        1 <= window_at(d, i).position_x + window_at(d, i).width - 1 <= d.size.0 - 2,
        1 <= window_at(d, i).position_y + window_at(d, i).height - 1 <= d.size.1 - 2,
    ensures
        ({
            let s = d.acted(Action::ResizeActive).0;
            let w = window_at(d, i);
            &&& s.mode == (ModeModel::Resizing { app_idx: i, edit: None })
            &&& s.pointer.x == w.position_x + w.width - 1
            &&& s.pointer.y == w.position_y + w.height - 1
            &&& s.apps == d.apps
        }),
{
}

// ── The help and the start menu ──────────────────────────────────────────────

/// While the help is open, Down scrolls it on by a row and Up back by one, PageDown and
/// PageUp by as many rows as it shows, never past its last row; Escape and End close it.
pub proof fn lemma_help_keys(d: DeskModel, i: usize, key: Key, now: u64)
    requires
        d.mode is Normal,
        d.menu_at() is None,
        d.help_at() == Some(i),
        plain(d, key),
        i < d.apps.len(),
        d.apps[i as int].help is Some,
        d.apps[i as int].window() is Some,
        window_at(d, i).height >= 3,
    ensures
        ({
            let s = d.key_handled(key, now).0;
            let (at, to) = (
                (d.apps[i as int].help->0).scroll,
                (s.apps[i as int].help->0).scroll,
            );
            let page = window_at(d, i).height - 2;
            let last = d.help_room(i).1;
            &&& key == Key::Down && at < last ==> to == at + 1
            &&& key == Key::Down && at >= last ==> to == last
            &&& key == Key::Up && at > 0 ==> to == at - 1
            &&& key == Key::Up && at == 0 ==> to == 0
            &&& key == Key::PageDown && at + page <= last ==> to == at + page
            &&& key == Key::PageDown && at + page > last ==> to == last
            &&& key == Key::PageUp && at >= page ==> to == at - page
            &&& key == Key::PageUp && at < page ==> to == 0
            &&& key == Key::Escape || key == Key::End ==> s.apps == d.apps.remove(i as int)
        }),
{
}

/// While the start menu is open, the arrow keys move the pointer by a cell and select the
/// entry that it comes to.
pub proof fn lemma_menu_arrows(d: DeskModel, i: usize, key: Key, now: u64)
    requires
        key == Key::Up || key == Key::Down,
        d.mode is Normal,
        d.menu_at() == Some(i),
        plain(d, key),
        i < d.apps.len(),
        d.apps[i as int].menu is Some,
        d.apps[i as int].window() is Some,
        d.size.0 >= 3,
        d.size.1 >= 3,
        d.pointer.clamped(d.size.0, d.size.1) == d.pointer,
        ({
            let w = window_at(d, i);
            &&& w.position_x < d.pointer.x < w.position_x + w.width - 1
            &&& w.position_y + 1 < d.pointer.y < w.position_y + w.height - 2
        }),
        d.pointer.y + 1 < d.size.1 - 1,
        (d.apps[i as int].menu->0).scroll == 0,
        d.pointer.y - window_at(d, i).position_y < (d.apps[i as int].menu->0).items.len(),
    ensures
        ({
            let s = d.key_handled(key, now).0;
            let row = d.pointer.y - window_at(d, i).position_y - 1;
            &&& s.pointer.x == d.pointer.x
            &&& s.pointer.y == (if key == Key::Up {
                d.pointer.y - 1
            } else {
                d.pointer.y + 1
            })
            &&& (s.apps[i as int].menu->0).selected == (if key == Key::Up {
                row - 1
            } else {
                row + 1
            })
        }),
{
}

/// Enter and the space bar on an entry of the start menu close the menu and ask for that
/// entry to be launched.
pub proof fn lemma_menu_launches(d: DeskModel, i: usize, key: Key, now: u64)
    requires
        key == Key::Enter || key == Key::Char(' '),
        d.mode is Normal,
        d.menu_at() == Some(i),
        plain(d, key),
        i < d.apps.len(),
        d.apps[i as int].menu is Some,
        d.entry_pointed(i) is Some,
        (d.apps[i as int].menu->0).selected < (d.apps[i as int].menu->0).items.len(),
    ensures
        ({
            let (s, out) = d.key_handled(key, now);
            let m = d.apps[i as int].menu->0;
            &&& out == OutcomeModel::Ask(AskModel::Launch { item: m.items[m.selected as int] })
            &&& s.apps == d.apps.remove(i as int)
        }),
{
}

/// A press on an entry of the start menu closes the menu and asks for the entry in that
/// row to be launched.
pub proof fn lemma_menu_pressed(
    d: DeskModel,
    i: usize,
    ev: MouseEvent,
    x: int,
    y: int,
    now: u64,
)
    requires
        d.in_program() is None,
        d.menu_at() == Some(i),
        d.help_at() is None,
        ev.kind == MouseAction::Press,
        ev.button == MouseButton::Left,
        event_at(d, ev, x, y),
        i < d.apps.len(),
        d.apps[i as int].menu is Some,
        d.apps[i as int].window() is Some,
        ({
            let w = window_at(d, i);
            let m = d.apps[i as int].menu->0;
            &&& w.position_x < x < w.position_x + w.width - 1
            &&& w.position_y < y < w.position_y + w.height - 1
            &&& m.scroll + (y - w.position_y - 1) < m.items.len() <= usize::MAX
        }),
    ensures
        ({
            let (s, out) = d.key_handled(Key::Mouse(ev), now);
            let m = d.apps[i as int].menu->0;
            &&& out == OutcomeModel::Ask(
                AskModel::Launch { item: m.items[m.scroll + (y - window_at(d, i).position_y - 1)] },
            )
            &&& s.apps == d.apps.remove(i as int)
        }),
{
    let s = d.key_handled(Key::Mouse(ev), now).0;
    assert(s.apps =~= d.apps.remove(i as int));
}

// ── Shortcuts ────────────────────────────────────────────────────────────────

/// What the shortcuts ask for, and that they change nothing until it is there.
pub proof fn lemma_shortcuts_ask(d: DeskModel)
    ensures
        d.acted(Action::NewTerminal) == (d, OutcomeModel::Ask(AskModel::Terminal)),
        d.acted(Action::StartMenu) == (d, OutcomeModel::Ask(AskModel::Menu)),
        d.acted(Action::SplitVertical).0 == d,
        d.acted(Action::SplitHorizontal).0 == d,
        d.acted(Action::Quit).0.quit,
        d.acted(Action::Quit).0.apps == d.apps,
{
}

/// A terminal that is opened is the last in the list, on the desktop and in the directory
/// that were asked for; the other windows stay.
pub proof fn lemma_terminal_opened(
    d: DeskModel,
    desktop: usize,
    path: Seq<char>,
    commands: Seq<crate::cmd::EntryModel>,
    session: Option<crate::app::terminal::ShellSession>,
)
    requires
        d.apps.len() < usize::MAX,
    ensures
        ({
            let s = d.terminal_opened(desktop, path, commands, session);
            let n = d.apps.len() as int;
            &&& s.apps.len() == n + 1
            &&& s.apps[n].desktop == desktop
            &&& s.apps[n].terminal is Some
            &&& (s.apps[n].terminal->0).path == path
            &&& (s.apps[n].terminal->0).session == session
            &&& s.apps[n].display is Windowed
            &&& forall|k: int| 0 <= k < n ==> #[trigger] s.apps[k] == d.apps[k]
            &&& s.desktop == d.desktop
        }),
{
}

/// An entry of the start menu that is launched gets a window of its own, named after it and
/// with the focus, on the desktop that it names or on the one that is shown, which is then
/// the one that is shown; the other windows stay.
pub proof fn lemma_entry_launched(
    d: DeskModel,
    item: crate::menu::MenuItemModel,
    home: Option<Seq<char>>,
    shell: Seq<char>,
    lines: Seq<Seq<char>>,
    session: Option<crate::app::terminal::ShellSession>,
)
    requires
        d.apps.len() < usize::MAX,
        item.kind == crate::menu::MenuKind::Terminal || item.kind == crate::menu::MenuKind::App,
        item.desktop matches Some(k) ==> 1 <= k <= 4,
        1 <= d.desktop <= 4,
    ensures
        ({
            let s = d.launched(item, home, shell, lines, session).0;
            let n = d.apps.len() as int;
            &&& s.apps.len() == n + 1
            &&& s.apps[n].title == item.label
            &&& s.mode == (ModeModel::TerminalFocus { app_idx: n as usize })
            &&& s.desktop == (match item.desktop {
                Some(k) => k,
                None => d.desktop,
            })
            &&& s.apps[n].desktop == s.desktop
            &&& (s.apps[n].terminal->0).session == session
            &&& forall|k: int| 0 <= k < n ==> #[trigger] s.apps[k] == d.apps[k]
        }),
{
}

/// On the rail the pointer stays between its ends where there are more tabs than are shown;
/// where there are not, it leaves it to the left.
pub proof fn lemma_pointer_at_rail(d: DeskModel)
    requires
        d.mode is Normal,
        d.size.0 >= 2,
        d.size.1 >= 5,
        d.pointer.x == d.size.0 - 1,
    ensures
        ({
            let s = d.settled();
            let more = minimized(d.apps, d.desktop).len() > tabs(
                d.apps,
                d.desktop,
                d.size.1,
                d.tab_scroll,
            ).len();
            &&& more ==> s.pointer.x == d.pointer.x && 1 <= s.pointer.y <= d.size.1 - 4
            &&& more && 1 <= d.pointer.y <= d.size.1 - 4 ==> s.pointer == d.pointer
            &&& !more ==> s.pointer.x == d.size.0 - 2 && s.pointer.y == d.pointer.y
            &&& s.apps == d.apps
        }),
{
}

/// Tabs stand one below the other from the second row on, each eight rows high where there
/// is room for all at that height, and else six.
pub proof fn lemma_tab_places(d: DeskModel, k: int)
    requires
        0 <= k < tabs(d.apps, d.desktop, d.size.1, d.tab_scroll).len(),
        d.size.1 >= 4,
    ensures
        ({
            let list = minimized(d.apps, d.desktop);
            let t = tabs(d.apps, d.desktop, d.size.1, d.tab_scroll)[k];
            let high: int = if list.len() * 8 <= d.size.1 - 4 {
                8
            } else {
                6
            };
            &&& t.0 == list[d.tab_scroll + k]
            &&& t.1 == 1 + k * high
            &&& t.2 == high
        }),
{
    lemma_tabs_fit(d.apps, d.desktop, d.size.1, d.tab_scroll);
    let list = minimized(d.apps, d.desktop);
    let high: int = if list.len() * 8 <= d.size.1 - 4 {
        8
    } else {
        6
    };
    let room = (d.size.1 - 4) as int / high;
    assert(0 <= k * high && k * high + high <= d.size.1 - 4) by (nonlinear_arith)
        requires
            0 <= k < room,
            room == (d.size.1 - 4) as int / high,
            high == 8 || high == 6,
            d.size.1 >= 4,
    ;
}

} // verus!

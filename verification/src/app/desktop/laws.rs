//! What holds of the desktop from one key to the next, and from one run to the next.
use vstd::prelude::*;
use crate::app::desktop::layout::{
    begun, layout_of, lemma_restored_in_place, recalled_all, restored_app, restored_apps, saved_app,
    saved_apps, Restored,
};
use crate::app::desktop::{DeskModel, EffectModel, OutcomeModel};
use crate::app::AppModel;
use crate::cmd::EntryModel;
use crate::config::{Action, ConfigModel};
use crate::os::Key;
use crate::session::{SavedAppModel, SessionModel};
use crate::ui::window::{MIN_H, MIN_W};
use crate::wm::{
    first_of, front, is_kind, last_of, lemma_front, lemma_help_toggled_twice, lemma_raised_is_front,
    moves, opened, synced, ModeModel,
};

verus! {

/// The key that quits saves the layout.
pub proof fn lemma_quit_saves(d: DeskModel, key: Key, now: u64)
    requires
        d.config.resolved(key) == Some(Action::Quit),
    ensures
        d.stepped(key, now).0.quit,
        d.stepped(key, now).0.outbox == d.outbox.push(EffectModel::Save { layout: layout_of(d) }),
{
}

/// A mouse that is switched off does nothing.
pub proof fn lemma_mouse_off(d: DeskModel, key: Key, now: u64)
    requires
        !d.mouse_enabled,
        key is Mouse,
        d.config.resolved(key) != Some(Action::Quit),
    ensures
        d.stepped(key, now) == (d, OutcomeModel::Done(false)),
{
}

/// Escape on the desktop drops the selection, and no button counts as held.
pub proof fn lemma_escape_releases(d: DeskModel, now: u64)
    requires
        d.mode is Normal,
        d.sel is Some,
        d.help_at() is None,
        d.config.resolved(Key::Escape) is None,
    ensures
        ({
            let s = d.key_handled(Key::Escape, now).0;
            &&& s.sel is None
            &&& !s.mouse_selecting
            &&& s.mouse_down is None
            &&& s.apps == d.apps
        }),
{
}

/// The active window that is taken to another desktop is in front there, and the
/// desktop is shown.
pub proof fn lemma_desktop_followed(d: DeskModel, to: usize)
    requires
        d.apps.len() <= usize::MAX,
        moves(d.apps, d.mode, d.desktop, to) is Some,
    ensures
        ({
            let i = moves(d.apps, d.mode, d.desktop, to)->0;
            let (s, changed) = d.window_taken(to);
            &&& changed
            &&& s.desktop == to
            &&& s.apps.len() == d.apps.len()
            &&& s.apps.last().desktop == to
            &&& s.apps.last().title == d.apps[i as int].title
            &&& s.apps.last().terminal == d.apps[i as int].terminal
        }),
{
    lemma_front(d.apps, d.desktop, None, d.apps.len() as int);
}

/// Escape and End lead back to the desktop from the dock, from a terminal and from a
/// program, and leave the windows and everything outside as they are.
pub proof fn lemma_escape_leaves(d: DeskModel, key: Key, now: u64)
    requires
        key == Key::Escape || key == Key::End,
        d.mode is Typing || d.mode is TerminalFocus,
        d.config.resolved(key) is None,
    ensures
        ({
            let s = d.key_handled(key, now).0;
            &&& s.mode is Normal
            &&& s.apps == d.apps
            &&& s.input == d.input
            &&& s.outbox == d.outbox
        }),
{
}

/// The page keys scroll what a program has printed, and the program does not see
/// them.
pub proof fn lemma_pages_stay_here(d: DeskModel, key: Key, now: u64)
    requires
        d.in_program() is Some,
        key == Key::PageUp || key == Key::PageDown,
    ensures
        d.key_handled(key, now).0.outbox == d.outbox,
        d.key_handled(key, now).0.mode == d.mode,
{
}

/// A size that is given up changes no window.
pub proof fn lemma_resize_cancelled(d: DeskModel, i: usize, now: u64)
    requires
        d.mode == (ModeModel::Resizing { app_idx: i, edit: None }),
        d.config.resolved(Key::Escape) is None,
    ensures
        d.key_handled(Key::Escape, now).0 == (DeskModel { mode: ModeModel::Normal, ..d }),
{
}

/// The digits show their desktop.
pub proof fn lemma_digit_shows_desktop(d: DeskModel, c: char, now: u64)
    requires
        d.mode is Normal,
        '1' <= c <= '4',
        d.config.resolved(Key::Char(c)) is None,
    ensures
        d.key_handled(Key::Char(c), now).0.desktop == c as int - 48,
        d.key_handled(Key::Char(c), now).0.apps == d.apps,
{
}

/// Switching the mouse off and on again changes nothing.
pub proof fn lemma_mouse_toggled_twice(d: DeskModel)
    ensures
        d.acted(Action::ToggleMouse).0.mouse_enabled != d.mouse_enabled,
        d.acted(Action::ToggleMouse).0.acted(Action::ToggleMouse).0 == d,
{
}

/// A right click raises the window under the pointer above all others there.
pub proof fn lemma_right_click_raises(d: DeskModel)
    requires
        d.apps.len() <= usize::MAX,
        front(d.apps, d.desktop, Some((d.pointer.x, d.pointer.y))) is Some,
    ensures
        ({
            let (s, changed) = d.right_pressed();
            &&& changed
            &&& front(s.apps, d.desktop, Some((d.pointer.x, d.pointer.y))) == Some(
                (d.apps.len() - 1) as usize,
            )
            &&& s.apps.last().title == d.apps[front(
                d.apps,
                d.desktop,
                Some((d.pointer.x, d.pointer.y)),
            )->0 as int].title
        }),
{
    let at = Some((d.pointer.x, d.pointer.y));
    let i = front(d.apps, d.desktop, at)->0;
    lemma_front(d.apps, d.desktop, at, d.apps.len() as int);
    lemma_raised_is_front(d.apps, i as int, d.desktop, at);
}

// ── The help ─────────────────────────────────────────────────────────────────

proof fn lemma_none_of(a: Seq<AppModel>, desktop: usize, help: bool, n: int)
    requires
        0 <= n <= a.len(),
        last_of(a, desktop, help, n) is None,
    ensures
        first_of(a, desktop, help, n) is None,
    decreases n,
{
    if n > 0 {
        lemma_none_of(a, desktop, help, n - 1);
    }
}

/// The help opens in front; the same action, or Escape on the desktop, closes it and
/// leaves the windows as they were.
pub proof fn lemma_help_closes(d: DeskModel, now: u64)
    requires
        d.apps.len() < usize::MAX,
        d.help_at() is None,
    ensures
        ({
            let s = d.acted(Action::Help).0;
            &&& s.help_at() == Some(d.apps.len() as usize)
            &&& s.acted(Action::Help).0.apps == d.apps
            &&& d.mode is Normal && s.menu_at() is None && d.config.resolved(Key::Escape) is None
                ==> s.key_handled(Key::Escape, now).0.apps == d.apps
        }),
{
    let a = d.apps;
    lemma_none_of(a, d.desktop, true, a.len() as int);
    lemma_help_toggled_twice(a, d.desktop, d.size.0, d.size.1);
    let s = d.acted(Action::Help).0;
    let b = s.apps;
    assert(b.len() == a.len() + 1);
    assert(is_kind(b[b.len() - 1], d.desktop, true));
    assert(b.remove(a.len() as int) =~= a);
}

// ── The layout ───────────────────────────────────────────────────────────────

/// A saved terminal that has its place on a screen of the given size.
pub open spec fn has_room(a: SavedAppModel, size: (u16, u16)) -> bool {
    &&& 1 <= a.desktop <= 4
    &&& MIN_W <= a.w <= size.0 - 2
    &&& MIN_H <= a.h <= size.1 - 4
    &&& a.x + a.w <= size.0
    &&& a.y + a.h + 3 <= size.1
}

proof fn lemma_saved_again(
    list: Seq<Restored>,
    n: int,
    size: (u16, u16),
    path: Seq<char>,
    commands: Seq<EntryModel>,
)
    requires
        0 <= n <= list.len(),
        forall|i: int|
            0 <= i < list.len() ==> (#[trigger] list[i]).path_exists && has_room(
                list[i].app@,
                size,
            ),
    ensures
        ({
            let a = restored_apps(list, n, size, path, commands);
            &&& a.len() == n
            &&& saved_apps(a.map_values(|m: AppModel| synced(m))) == Seq::new(
                n as nat,
                |i: int| list[i].app@,
            )
        }),
    decreases n,
{
    let f = |m: AppModel| synced(m);
    let a = restored_apps(list, n, size, path, commands);
    if n > 0 {
        lemma_saved_again(list, n - 1, size, path, commands);
        let front = restored_apps(list, n - 1, size, path, commands);
        let one = restored_app(list[n - 1], size, path, commands);
        assert(list[n - 1].path_exists);
        lemma_restored_in_place(list[n - 1].app@, size);
        assert(a == opened(front, one));
        assert(front.push(one).remove(n - 1) =~= front);
        assert(a.map_values(f).drop_last() =~= front.map_values(f));
        assert(saved_app(a.map_values(f).last()) == Some(list[n - 1].app@));
    }
    assert(saved_apps(a.map_values(f)) =~= Seq::new(n as nat, |i: int| list[i].app@));
}

/// A layout survives a restart: the terminals that were saved are opened where they
/// were, with their titles and directories, and the same desktop is shown. A
/// terminal comes back in place where its directory still exists and the screen has
/// room for it.
pub proof fn lemma_layout_survives(
    saved: SessionModel,
    list: Seq<Restored>,
    path: Seq<char>,
    size: (u16, u16),
    config: ConfigModel,
    lines: Seq<Seq<char>>,
)
    requires
        1 <= saved.current_desktop <= 4,
        saved.apps == Seq::new(list.len(), |i: int| list[i].app@),
        forall|i: int|
            0 <= i < list.len() ==> (#[trigger] list[i]).path_exists && has_room(
                list[i].app@,
                size,
            ),
    ensures
        layout_of(begun(path, size, config, lines, Some(saved.current_desktop), list)) == saved,
{
    lemma_saved_again(list, list.len() as int, size, path, recalled_all(lines, path));
}

} // verus!

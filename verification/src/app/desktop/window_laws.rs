//! Where windows go, and how large they become: snapped, split, moved, sized,
//! maximised, minimised and closed.
use vstd::prelude::*;
use vstd::utf8::{encode_utf8, is_ascii_chars, is_ascii_chars_encode_utf8};
use crate::app::desktop::{window_of, DeskModel};
use crate::app::terminal::ShellSession;
use crate::app::DisplayMode;
use crate::config::Action;
use crate::os::{HeldArrowKeys, Key, MouseAction, MouseEvent};
use crate::text::{dec, lemma_dec};
use crate::ui::pointer::Pointer;
use crate::ui::screen::number_of;
use crate::ui::transitions::{ascii, lemma_dec_number};
use crate::ui::window::Window;
use crate::wm::{
    active, edit_applied, front, lemma_front, minimized, preview_size, EditModel, ModeModel,
    ResizeAxis, ResizeOp, SplitDirection,
};

verus! {

/// No arrow key is held.
pub open spec fn none_held() -> HeldArrowKeys {
    HeldArrowKeys { up: false, down: false, left: false, right: false }
}

/// Window `i` of the desktop.
pub open spec fn window_at(d: DeskModel, i: usize) -> Window {
    d.apps[i as int].window()->0
}

/// Whether the active window is that of application `i`, and may change its size.
pub open spec fn can_snap(d: DeskModel, i: usize) -> bool {
    &&& active(d.apps, d.mode, d.desktop) == Some(i)
    &&& i < d.apps.len()
    &&& d.apps[i as int].window() is Some
    &&& window_at(d, i).resizable
    &&& d.size.0 >= 15
    &&& d.size.1 >= 10
}

/// Whether window `i` is the only thing that a change of the desktop was about.
pub open spec fn only_window(d: DeskModel, s: DeskModel, i: usize) -> bool {
    &&& s.apps.len() == d.apps.len()
    &&& s.apps[i as int].title == d.apps[i as int].title
    &&& s.apps[i as int].terminal == d.apps[i as int].terminal
    &&& s.apps[i as int].desktop == d.apps[i as int].desktop
    &&& forall|k: int| 0 <= k < d.apps.len() && k != i ==> #[trigger] s.apps[k] == d.apps[k]
    &&& s.desktop == d.desktop
    &&& s.size == d.size
}

// ── Snapping ─────────────────────────────────────────────────────────────────

/// Alt with the left or the right arrow makes the active window the left or the right
/// half of the screen between its border, the tabs and the status bar: as high as
/// all of it, the one beginning where the other ends.
pub proof fn lemma_snapped_sideways(d: DeskModel, i: usize)
    requires
        can_snap(d, i),
    ensures
        ({
            let (s, left_taken) = d.window_snapped(Key::AltLeft, none_held());
            let (t, right_taken) = d.window_snapped(Key::AltRight, none_held());
            let (l, r) = (window_at(s, i), window_at(t, i));
            &&& left_taken && right_taken
            &&& only_window(d, s, i) && only_window(d, t, i)
            &&& s.apps[i as int].display is Windowed && t.apps[i as int].display is Windowed
            &&& l.position_x == 2
            &&& l.width == (d.size.0 - 5) / 2
            &&& r.position_x == l.position_x + l.width
            &&& r.position_x + r.width == d.size.0 - 3
            &&& l.position_y == 1 && l.height == d.size.1 - 4
            &&& r.position_y == 1 && r.height == d.size.1 - 4
            &&& s.mode is Normal && t.mode is Normal
        }),
{
}

/// Alt with the arrow down makes the active window the lower half, and with the arrow
/// up the upper half where it is not that already: as wide as all of the screen
/// between its border, the tabs and the status bar, the one beginning where the other
/// ends.
pub proof fn lemma_snapped_up_and_down(d: DeskModel, i: usize)
    requires
        can_snap(d, i),
        d.apps[i as int].display is Windowed,
        window_at(d, i).position_y != 1 || window_at(d, i).height != (d.size.1 - 4) / 2,
    ensures
        ({
            let (s, up_taken) = d.window_snapped(Key::AltUp, none_held());
            let (t, down_taken) = d.window_snapped(Key::AltDown, none_held());
            let (u, l) = (window_at(s, i), window_at(t, i));
            &&& up_taken && down_taken
            &&& only_window(d, s, i) && only_window(d, t, i)
            &&& s.apps[i as int].display is Windowed && t.apps[i as int].display is Windowed
            &&& u.position_y == 1
            &&& u.height == (d.size.1 - 4) / 2
            &&& l.position_y == u.position_y + u.height
            &&& l.position_y + l.height == d.size.1 - 3
            &&& u.position_x == 2 && u.width == d.size.0 - 5
            &&& l.position_x == 2 && l.width == d.size.0 - 5
        }),
{
}

/// Alt with the arrow up on the upper half fills the screen; once more gives the upper
/// half again.
pub proof fn lemma_snapped_up_again(d: DeskModel, i: usize)
    requires
        can_snap(d, i),
        d.mode is Normal,
        d.apps[i as int].display is Windowed,
        window_at(d, i).position_x == 2,
        window_at(d, i).position_y == 1,
        window_at(d, i).width == d.size.0 - 5,
        window_at(d, i).height == (d.size.1 - 4) / 2,
    ensures
        ({
            let s = d.window_snapped(Key::AltUp, none_held()).0;
            let w = window_at(s, i);
            &&& w.position_x == 2 && w.position_y == 1
            &&& w.width == d.size.0 - 5 && w.height == d.size.1 - 4
            &&& s.apps[i as int].display is Maximized
            &&& active(s.apps, s.mode, s.desktop) == Some(i) ==> window_at(
                s.window_snapped(Key::AltUp, none_held()).0,
                i,
            ) == window_at(d, i)
        }),
{
}

/// An arrow of the other axis that is held makes it a quarter: the corner between the
/// two arrows, whichever of them comes with Alt.
pub proof fn lemma_snapped_to_corners(d: DeskModel, i: usize, key: Key, held: HeldArrowKeys)
    requires
        can_snap(d, i),
        ({
            ||| (key == Key::AltLeft || key == Key::AltRight) && held.up != held.down
            ||| (key == Key::AltUp || key == Key::AltDown) && held.left != held.right
        }),
    ensures
        ({
            let (s, taken) = d.window_snapped(key, held);
            let w = window_at(s, i);
            let sideways = key == Key::AltLeft || key == Key::AltRight;
            let left = if sideways {
                key == Key::AltLeft
            } else {
                held.left
            };
            let upper = if sideways {
                held.up
            } else {
                key == Key::AltUp
            };
            &&& taken && only_window(d, s, i)
            &&& left ==> w.position_x == 2 && w.width == (d.size.0 - 5) / 2
            &&& !left ==> w.position_x == 2 + (d.size.0 - 5) / 2 && w.position_x + w.width
                == d.size.0 - 3
            &&& upper ==> w.position_y == 1 && w.height == (d.size.1 - 4) / 2
            &&& !upper ==> w.position_y == 1 + (d.size.1 - 4) / 2 && w.position_y + w.height
                == d.size.1 - 3
        }),
{
}

// ── Sizing ───────────────────────────────────────────────────────────────────

/// The larger of two numbers.
pub open spec fn larger(a: int, b: int) -> int {
    if a >= b {
        a
    } else {
        b
    }
}

/// A size that was typed: `+`, `-` or `=` and the number `v`.
pub open spec fn typed_size(axis: ResizeAxis, op: ResizeOp, v: nat) -> EditModel {
    EditModel { axis, op: Some(op), value: dec(v) }
}

proof fn lemma_typed_value(v: nat)
    requires
        v <= 0xffff,
    ensures
        number_of(encode_utf8(dec(v))) == Some(v as u16),
{
    lemma_dec(v);
    lemma_dec_number(v);
    let t = dec(v);
    assert(is_ascii_chars(t)) by {
        assert forall|i: int| 0 <= i < t.len() implies 0 <= #[trigger] t[i] as int && t[i] as int
            <= 127 by {
            assert('0' <= t[i] <= '9');
        }
    }
    is_ascii_chars_encode_utf8(t);
    assert(encode_utf8(t) =~= ascii(t));
}

/// The corner of a window that the pointer drags: the preview is as large as the
/// window from its upper left corner to the pointer, and no smaller than 5 columns
/// and 3 rows.
pub proof fn lemma_preview(w: Window, p: Pointer)
    requires
        p.x < 0xffff,
        p.y < 0xffff,
    ensures
        w.position_x <= p.x ==> preview_size(w, p).0 == larger(p.x - w.position_x + 1, 5),
        w.position_y <= p.y ==> preview_size(w, p).1 == larger(p.y - w.position_y + 1, 3),
        p.x < w.position_x ==> preview_size(w, p).0 == 5,
        p.y < w.position_y ==> preview_size(w, p).1 == 3,
{
}

/// What is typed after `-` is taken off the previewed size, down to the least; the
/// other side stays.
pub proof fn lemma_size_subtracted(w: Window, p: Pointer, screen_w: u16, screen_h: u16, v: nat)
    requires
        screen_w >= 3,
        screen_h >= 3,
        p.clamped(screen_w, screen_h) == p,
        1 <= v <= 0xffff,
    ensures
        ({
            let x = edit_applied(
                w,
                p,
                screen_w,
                screen_h,
                typed_size(ResizeAxis::Width, ResizeOp::Sub, v),
            );
            let y = edit_applied(
                w,
                p,
                screen_w,
                screen_h,
                typed_size(ResizeAxis::Height, ResizeOp::Sub, v),
            );
            let before = preview_size(w, p);
            &&& x is Some && y is Some
            &&& preview_size(w, x->0).0 == larger(before.0 - v, 5)
            &&& preview_size(w, x->0).1 == before.1
            &&& preview_size(w, y->0).1 == larger(before.1 - v, 3)
            &&& preview_size(w, y->0).0 == before.0
            &&& preview_size(w, x->0).0 <= before.0
            &&& preview_size(w, y->0).1 <= before.1
        }),
{
    lemma_typed_value(v);
}

/// What is typed after `+` is put on the previewed size, and what is typed after `=`
/// is the size, where the screen has room; the other side stays.
pub proof fn lemma_size_added(w: Window, p: Pointer, screen_w: u16, screen_h: u16, v: nat)
    requires
        screen_w >= 3,
        screen_h >= 3,
        p.clamped(screen_w, screen_h) == p,
        1 <= v <= 0xffff,
    ensures
        ({
            let before = preview_size(w, p);
            let add = edit_applied(
                w,
                p,
                screen_w,
                screen_h,
                typed_size(ResizeAxis::Width, ResizeOp::Add, v),
            );
            let set_to = edit_applied(
                w,
                p,
                screen_w,
                screen_h,
                typed_size(ResizeAxis::Width, ResizeOp::Assign, v),
            );
            &&& add is Some && set_to is Some
            &&& w.position_x + before.0 + v <= screen_w - 1 ==> preview_size(w, add->0) == (
                (before.0 + v) as u16,
                before.1,
            )
            &&& w.position_x + larger(v as int, 5) <= screen_w - 1 ==> preview_size(
                w,
                set_to->0,
            ) == (larger(v as int, 5) as u16, before.1)
        }),
        ({
            let before = preview_size(w, p);
            let add = edit_applied(
                w,
                p,
                screen_w,
                screen_h,
                typed_size(ResizeAxis::Height, ResizeOp::Add, v),
            );
            let set_to = edit_applied(
                w,
                p,
                screen_w,
                screen_h,
                typed_size(ResizeAxis::Height, ResizeOp::Assign, v),
            );
            &&& add is Some && set_to is Some
            &&& w.position_y + before.1 + v <= screen_h - 1 ==> preview_size(w, add->0) == (
                before.0,
                (before.1 + v) as u16,
            )
            &&& w.position_y + larger(v as int, 3) <= screen_h - 1 ==> preview_size(
                w,
                set_to->0,
            ) == (before.0, larger(v as int, 3) as u16)
        }),
{
    lemma_typed_value(v);
}

/// What is added and then taken off again leaves the previewed size as it was, where
/// the screen has room.
pub proof fn lemma_size_there_and_back(
    w: Window,
    p: Pointer,
    screen_w: u16,
    screen_h: u16,
    v: nat,
)
    requires
        screen_w >= 3,
        screen_h >= 3,
        p.clamped(screen_w, screen_h) == p,
        1 <= v <= 0xffff,
        w.position_x + preview_size(w, p).0 + v <= screen_w - 1,
    ensures
        ({
            let q = edit_applied(
                w,
                p,
                screen_w,
                screen_h,
                typed_size(ResizeAxis::Width, ResizeOp::Add, v),
            )->0;
            let r = edit_applied(
                w,
                q,
                screen_w,
                screen_h,
                typed_size(ResizeAxis::Width, ResizeOp::Sub, v),
            )->0;
            preview_size(w, r) == preview_size(w, p)
        }),
{
    lemma_typed_value(v);
}

/// No shortcut is on the key.
pub open spec fn plain(d: DeskModel, key: Key) -> bool {
    d.config.resolved(key) is None
}

/// While a size is typed, `x` and `h` begin a width, `y` and `v` a height; `+`, `-`
/// and `=` say what is done with the number; a digit goes behind it, and backspace
/// takes the last one off.
pub proof fn lemma_size_keys(
    d: DeskModel,
    i: usize,
    axis: ResizeAxis,
    e: EditModel,
    c: char,
    now: u64,
)
    requires
        plain(d, Key::Char(c)),
        plain(d, Key::Backspace),
    ensures
        d.mode is Resizing && d.mode->Resizing_app_idx == i ==> {
            let s = d.key_handled(Key::Char(c), now).0;
            &&& c == 'x' || c == 'h' ==> s == (DeskModel {
                mode: ModeModel::Resizing {
                    app_idx: i,
                    edit: Some(
                        EditModel { axis: ResizeAxis::Width, op: None, value: Seq::empty() },
                    ),
                },
                ..d
            })
            &&& c == 'y' || c == 'v' ==> s == (DeskModel {
                mode: ModeModel::Resizing {
                    app_idx: i,
                    edit: Some(
                        EditModel { axis: ResizeAxis::Height, op: None, value: Seq::empty() },
                    ),
                },
                ..d
            })
        },
        d.mode == (ModeModel::Resizing {
            app_idx: i,
            edit: Some(EditModel { axis, op: None, value: Seq::empty() }),
        }) ==> {
            let s = d.key_handled(Key::Char(c), now).0;
            let op = if c == '+' {
                ResizeOp::Add
            } else if c == '-' {
                ResizeOp::Sub
            } else {
                ResizeOp::Assign
            };
            c == '+' || c == '-' || c == '=' ==> s == (DeskModel {
                mode: ModeModel::Resizing {
                    app_idx: i,
                    edit: Some(EditModel { axis, op: Some(op), value: Seq::empty() }),
                },
                ..d
            })
        },
        e.op is Some && d.mode == (ModeModel::Resizing { app_idx: i, edit: Some(e) }) ==> {
            &&& '0' <= c <= '9' ==> d.key_handled(Key::Char(c), now).0 == (DeskModel {
                mode: ModeModel::Resizing {
                    app_idx: i,
                    edit: Some(EditModel { value: e.value.push(c), ..e }),
                },
                ..d
            })
            &&& e.value.len() > 0 ==> d.key_handled(Key::Backspace, now).0 == (DeskModel {
                mode: ModeModel::Resizing {
                    app_idx: i,
                    edit: Some(EditModel { value: e.value.drop_last(), ..e }),
                },
                ..d
            })
        },
{
}

/// Enter takes what was typed after `-` off the previewed size, down to the least, and
/// puts what was typed after `+` on it, where the screen has room.
pub proof fn lemma_typed_size_taken(d: DeskModel, i: usize, op: ResizeOp, v: nat, now: u64)
    requires
        plain(d, Key::Enter),
        d.size.0 >= 3,
        d.size.1 >= 3,
        d.pointer.clamped(d.size.0, d.size.1) == d.pointer,
        1 <= v <= 0xffff,
        d.mode == (ModeModel::Resizing {
            app_idx: i,
            edit: Some(typed_size(ResizeAxis::Width, op, v)),
        }),
        window_of(d.apps, i) is Some,
    ensures
        ({
            let w = window_of(d.apps, i)->0;
            let s = d.key_handled(Key::Enter, now).0;
            let before = preview_size(w, d.pointer);
            let now_size = preview_size(w, s.pointer);
            &&& s.mode == (ModeModel::Resizing { app_idx: i, edit: None })
            &&& s.apps == d.apps
            &&& now_size.1 == before.1
            &&& op == ResizeOp::Sub ==> now_size.0 == larger(before.0 - v, 5)
            &&& op == ResizeOp::Add && w.position_x + before.0 + v <= d.size.0 - 1 ==> now_size.0
                == before.0 + v
            &&& op == ResizeOp::Assign && w.position_x + larger(v as int, 5) <= d.size.0 - 1
                ==> now_size.0 == larger(v as int, 5)
        }),
{
    let w = window_of(d.apps, i)->0;
    lemma_dec(v);
    lemma_size_subtracted(w, d.pointer, d.size.0, d.size.1, v);
    lemma_size_added(w, d.pointer, d.size.0, d.size.1, v);
}

/// Enter and the space bar give a window that is sized the size from its upper left
/// corner to the pointer; it stays at its place, and the sizing ends.
pub proof fn lemma_size_given(d: DeskModel, i: usize, key: Key, now: u64)
    requires
        key == Key::Enter || key == Key::Char(' '),
        plain(d, key),
        d.mode == (ModeModel::Resizing { app_idx: i, edit: None }),
        i < d.apps.len(),
        d.apps[i as int].window() is Some,
        d.pointer.x < 0xffff,
        d.pointer.y < 0xffff,
        window_at(d, i).position_x <= d.pointer.x,
        window_at(d, i).position_y <= d.pointer.y,
    ensures
        ({
            let s = d.key_handled(key, now).0;
            let (v, w) = (window_at(d, i), window_at(s, i));
            &&& s.mode is Normal
            &&& only_window(d, s, i)
            &&& w.position_x == v.position_x && w.position_y == v.position_y
            &&& w.width == larger(d.pointer.x - v.position_x + 1, 5)
            &&& w.height == larger(d.pointer.y - v.position_y + 1, 3)
        }),
{
}

/// The arrow keys take the pointer one cell their way, as far as the border of the
/// screen; windows stay as they are.
pub proof fn lemma_arrows_move_pointer(d: DeskModel, key: Key, now: u64)
    requires
        key == Key::Up || key == Key::Down || key == Key::Left || key == Key::Right,
        plain(d, key),
        d.menu_at() is None,
        d.help_at() is None,
        d.size.0 >= 3,
        d.size.1 >= 3,
        d.pointer.clamped(d.size.0, d.size.1) == d.pointer,
        d.mode is Normal || d.mode is Moving || d.mode is Resizing && d.mode->edit is None,
    ensures
        ({
            let (p, q) = (d.pointer, d.key_handled(key, now).0.pointer);
            &&& d.key_handled(key, now).0.apps == d.apps
            &&& key == Key::Up ==> q.x == p.x && q.y == larger(p.y - 1, 1)
            &&& key == Key::Left ==> q.y == p.y && q.x == larger(p.x - 1, 1)
            &&& key == Key::Down ==> q.x == p.x && (if p.y < d.size.1 - 2 {
                q.y == p.y + 1
            } else {
                q.y == d.size.1 - 2
            })
            &&& key == Key::Right ==> q.y == p.y && (if p.x < d.size.0 - 2 {
                q.x == p.x + 1
            } else {
                q.x == d.size.0 - 2
            })
        }),
{
}

// ── Moving ───────────────────────────────────────────────────────────────────

/// Whether window `i` is moved and hangs at the pointer.
pub open spec fn hangs(d: DeskModel, i: usize, offset: u16) -> bool {
    &&& d.mode == (ModeModel::Moving { app_idx: i, offset_x: offset })
    &&& i < d.apps.len()
    &&& d.apps[i as int].window() is Some
    &&& window_at(d, i).position_x + offset == d.pointer.x
    &&& window_at(d, i).position_y == d.pointer.y
}

/// While a window is moved the arrow keys take it one cell their way, where there is
/// room; it keeps its size and hangs at the pointer.
pub proof fn lemma_arrows_move_window(d: DeskModel, i: usize, offset: u16, key: Key, now: u64)
    requires
        key == Key::Up || key == Key::Down || key == Key::Left || key == Key::Right,
        plain(d, key),
        hangs(d, i, offset),
        d.size.0 >= 3,
        d.size.1 >= 3,
        d.pointer.clamped(d.size.0, d.size.1) == d.pointer,
        key == Key::Up ==> d.pointer.y > 1,
        key == Key::Down ==> d.pointer.y < d.size.1 - 2,
        key == Key::Left ==> d.pointer.x > 1 && window_at(d, i).position_x > 0,
        key == Key::Right ==> d.pointer.x < d.size.0 - 2,
    ensures
        ({
            let s = d.stepped(key, now).0;
            let (v, w) = (window_at(d, i), window_at(s, i));
            &&& hangs(s, i, offset)
            &&& only_window(d, s, i)
            &&& w.width == v.width && w.height == v.height
            &&& w.position_x == v.position_x + (if key == Key::Right {
                1int
            } else if key == Key::Left {
                -1
            } else {
                0
            })
            &&& w.position_y == v.position_y + (if key == Key::Down {
                1int
            } else if key == Key::Up {
                -1
            } else {
                0
            })
        }),
{
}

/// Enter and the space bar leave a window that is moved where it is.
pub proof fn lemma_window_dropped(d: DeskModel, i: usize, offset: u16, key: Key, now: u64)
    requires
        key == Key::Enter || key == Key::Char(' '),
        plain(d, key),
        d.mode == (ModeModel::Moving { app_idx: i, offset_x: offset }),
        d.last_space is None,
    ensures
        d.key_handled(key, now).0.apps == d.apps,
        d.key_handled(key, now).0.mode is Normal,
{
}

/// A window that is moved follows the mouse: it hangs at the cell of the event.
pub proof fn lemma_window_follows_mouse(
    d: DeskModel,
    i: usize,
    offset: u16,
    ev: MouseEvent,
    now: u64,
)
    requires
        d.mouse_enabled,
        plain(d, Key::Mouse(ev)),
        ev.kind == MouseAction::Drag || ev.kind == MouseAction::Move,
        d.mode == (ModeModel::Moving { app_idx: i, offset_x: offset }),
        i < d.apps.len(),
        d.apps[i as int].window() is Some,
        !d.mouse_selecting,
        d.menu_at() is None,
        offset + 2 <= ev.x < d.size.0,
        2 <= ev.y < d.size.1,
    ensures
        ({
            let s = d.stepped(Key::Mouse(ev), now).0;
            let (v, w) = (window_at(d, i), window_at(s, i));
            &&& only_window(d, s, i)
            &&& w.position_x == ev.x - 1 - offset
            &&& w.position_y == ev.y - 1
            &&& w.width == v.width && w.height == v.height
        }),
{
}

// ── Splitting ────────────────────────────────────────────────────────────────

/// A terminal that is split keeps the left or the upper half of its place, and the new
/// one, in front and with the focus, has the rest of it and the same directory.
pub proof fn lemma_split_shares_place(
    d: DeskModel,
    i: usize,
    direction: SplitDirection,
    session: Option<ShellSession>,
)
    requires
        active(d.apps, d.mode, d.desktop) == Some(i),
        i < d.apps.len() < usize::MAX,
        d.apps[i as int].terminal is Some,
        !d.apps[i as int].is_menu,
        d.apps[i as int].display is Windowed,
        window_at(d, i).resizable,
        window_at(d, i).fits(),
        direction == SplitDirection::Vertical ==> window_at(d, i).width >= 10,
        direction == SplitDirection::Horizontal ==> window_at(d, i).height >= 6,
    ensures
        ({
            let s = d.terminal_split(direction, session);
            let last = d.apps.len() as usize;
            let (v, a, b) = (window_at(d, i), window_at(s, i), window_at(s, last));
            &&& s.apps.len() == d.apps.len() + 1
            &&& a.position_x == v.position_x && a.position_y == v.position_y
            &&& direction == SplitDirection::Vertical ==> {
                &&& a.width == v.width / 2 && a.width + b.width == v.width
                &&& b.position_x == a.position_x + a.width
                &&& b.position_y == v.position_y && a.height == v.height && b.height == v.height
            }
            &&& direction == SplitDirection::Horizontal ==> {
                &&& a.height == v.height / 2 && a.height + b.height == v.height
                &&& b.position_y == a.position_y + a.height
                &&& b.position_x == v.position_x && a.width == v.width && b.width == v.width
            }
            &&& s.apps[last as int].terminal->0.path == d.apps[i as int].terminal->0.path
            &&& s.apps[last as int].desktop == d.desktop
            &&& s.apps[i as int].title == d.apps[i as int].title
            &&& s.mode == (ModeModel::TerminalFocus { app_idx: last })
            &&& forall|k: int| 0 <= k < d.apps.len() && k != i ==> #[trigger] s.apps[k] == d.apps[k]
        }),
{
}

// ── Maximising and minimising ────────────────────────────────────────────────

/// The active window that is maximised takes all of the screen between its border, the
/// tabs and the status bar; the same again gives it its place and size back.
pub proof fn lemma_maximised_and_back(d: DeskModel, i: usize)
    requires
        active(d.apps, d.mode, d.desktop) == Some(i),
        i < d.apps.len(),
        d.apps[i as int].display is Windowed,
        d.size.0 >= 5,
        d.size.1 >= 4,
    ensures
        ({
            let s = d.acted(Action::ToggleMaximize).0;
            let w = window_at(s, i);
            &&& only_window(d, s, i)
            &&& w.position_x == 2 && w.position_y == 1
            &&& w.width == d.size.0 - 5 && w.height == d.size.1 - 4
            &&& s.apps[i as int].display is Maximized
            &&& w.layer == window_at(d, i).layer
            &&& active(s.apps, s.mode, s.desktop) == Some(i) ==> s.acted(
                Action::ToggleMaximize,
            ).0.apps == d.apps
        }),
{
    let s = d.acted(Action::ToggleMaximize).0;
    if active(s.apps, s.mode, s.desktop) == Some(i) {
        assert(s.acted(Action::ToggleMaximize).0.apps =~= d.apps);
    }
}

proof fn lemma_minimized_lists(a: Seq<crate::app::AppModel>, desktop: usize, i: int)
    requires
        0 <= i < a.len() <= usize::MAX,
        a[i].desktop == desktop,
        a[i].display is Minimized,
    ensures
        minimized(a, desktop).contains(i as usize),
    decreases a.len(),
{
    let list = minimized(a, desktop);
    if i == a.len() - 1 {
        assert(list.last() == i as usize);
    } else {
        let front = a.drop_last();
        lemma_minimized_lists(front, desktop, i);
        let k = choose|k: int| 0 <= k < minimized(front, desktop).len() && minimized(
            front,
            desktop,
        )[k] == i as usize;
        assert(list[k] == i as usize);
    }
}

/// The active window that is minimised leaves the screen, is among the tabs, and keeps
/// its place and size.
pub proof fn lemma_minimised(d: DeskModel, i: usize)
    requires
        active(d.apps, d.mode, d.desktop) == Some(i),
        i < d.apps.len() <= usize::MAX,
        d.apps[i as int].desktop == d.desktop,
        d.apps[i as int].display is Windowed,
        window_at(d, i).minimizable,
    ensures
        ({
            let s = d.acted(Action::Minimize).0;
            &&& only_window(d, s, i)
            &&& s.apps[i as int].window() is None
            &&& s.apps[i as int].display == DisplayMode::Minimized(window_at(d, i))
            &&& minimized(s.apps, s.desktop).contains(i)
            &&& s.mode is Normal
        }),
{
    let s = d.acted(Action::Minimize).0;
    lemma_minimized_lists(s.apps, s.desktop, i as int);
}

/// The active window that is closed is gone, and its session is ended; all others stay,
/// in their order.
pub proof fn lemma_closed(d: DeskModel, i: usize)
    requires
        active(d.apps, d.mode, d.desktop) == Some(i),
        i < d.apps.len(),
        d.apps[i as int].window() is Some,
        window_at(d, i).closable,
        active(d.ended(i).apps, d.mode, d.desktop) == Some(i),
    ensures
        ({
            let s = d.acted(Action::CloseWindow).0;
            &&& s.apps == d.apps.remove(i as int)
            &&& s.mode is Normal
            &&& s.desktop == d.desktop
        }),
{
    let s = d.acted(Action::CloseWindow).0;
    assert(s.apps =~= d.apps.remove(i as int));
}

/// The window in front at a cell covers it and is on the desktop that is shown. Where
/// there is none, no window of the desktop covers it.
pub proof fn lemma_front_at_cell(d: DeskModel, x: u16, y: u16)
    requires
        d.apps.len() <= usize::MAX,
    ensures
        match front(d.apps, d.desktop, Some((x, y))) {
            Some(i) => {
                let w = window_at(d, i);
                &&& i < d.apps.len() && d.apps[i as int].window() is Some
                &&& d.apps[i as int].desktop == d.desktop
                &&& w.position_x <= x < w.position_x + w.width
                &&& w.position_y <= y < w.position_y + w.height
                &&& forall|k: int|
                    0 <= k < d.apps.len() && (#[trigger] d.apps[k]).desktop == d.desktop
                        && d.apps[k].window() is Some && d.apps[k].window()->0.position_x <= x
                        < d.apps[k].window()->0.position_x + d.apps[k].window()->0.width
                        && d.apps[k].window()->0.position_y <= y
                        < d.apps[k].window()->0.position_y + d.apps[k].window()->0.height
                        ==> d.apps[k].window()->0.layer <= w.layer
            },
            None => forall|k: int|
                0 <= k < d.apps.len() && (#[trigger] d.apps[k]).desktop == d.desktop
                    && d.apps[k].window() is Some ==> !(d.apps[k].window()->0.position_x <= x
                    < d.apps[k].window()->0.position_x + d.apps[k].window()->0.width
                    && d.apps[k].window()->0.position_y <= y < d.apps[k].window()->0.position_y
                    + d.apps[k].window()->0.height),
        },
{
    lemma_front(d.apps, d.desktop, Some((x, y)), d.apps.len() as int);
}

} // verus!

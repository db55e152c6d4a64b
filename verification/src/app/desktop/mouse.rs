//! What the mouse does.
use vstd::prelude::*;
use vstd::string::*;
use vstd::utf8::encode_utf8;
use crate::app::desktop::windows::{help_row, in_body, is_in_body};
use crate::app::desktop::{
    find_window, terminal_mut, terminal_of, window_mut_of, window_of, with_terminal, DeskModel,
    Desktop, Outcome, OutcomeModel,
};
use crate::app::terminal::{mouse_report, mouse_to_bytes, TermStateModel};
use crate::app::apps;
use crate::os::{MouseAction, MouseButton, MouseEvent};
use crate::ui::pointer::Pointer;
use crate::ui::render::{bar_bottom, bar_x};
use crate::ui::screen::BoxSelect;
use crate::ui::window::Window;
use crate::wm::{
    front, minimized, minimized_list, preview_size, resize_preview_size, topmost_window_at, Mode,
    ModeModel,
};

verus! {

/// How far the pointer is dragged before a selection begins.
pub const DRAG_THRESHOLD: u16 = 2;

/// How many columns and rows lie between two cells.
pub open spec fn distance(a: (u16, u16), b: (u16, u16)) -> int {
    let dx = if a.0 >= b.0 {
        a.0 - b.0
    } else {
        b.0 - a.0
    };
    let dy = if a.1 >= b.1 {
        a.1 - b.1
    } else {
        b.1 - a.1
    };
    dx + dy
}

fn distance_of(a: (u16, u16), b: (u16, u16)) -> (r: u32)
    ensures
        r == distance(a, b),
{
    let dx: u16 = if a.0 >= b.0 {
        a.0 - b.0
    } else {
        b.0 - a.0
    };
    let dy: u16 = if a.1 >= b.1 {
        a.1 - b.1
    } else {
        b.1 - a.1
    };
    dx as u32 + dy as u32
}

/// A count one up or down.
pub open spec fn one_off(n: usize, up: bool) -> usize {
    if up {
        if n < usize::MAX {
            (n + 1) as usize
        } else {
            n
        }
    } else if n > 0 {
        (n - 1) as usize
    } else {
        0
    }
}

pub(crate) fn move_count(n: usize, up: bool) -> (r: usize)
    ensures
        r == one_off(n, up),
{
    if up {
        n.saturating_add(1)
    } else {
        n.saturating_sub(1)
    }
}

/// The cell of an event.
pub open spec fn cell_of(ev: MouseEvent) -> (u16, u16) {
    (
        if ev.x > 0 {
            (ev.x - 1) as u16
        } else {
            0
        },
        if ev.y > 0 {
            (ev.y - 1) as u16
        } else {
            0
        },
    )
}

impl DeskModel {
    /// A press of the left button at the pointer.
    pub open spec fn left_pressed(self, now: u64) -> (DeskModel, OutcomeModel) {
        let s = self.deselected().help_dismissed();
        match s.menu_pressed() {
            Some(r) => r,
            None => match s.program_pointed() {
                Some(top) => {
                    let r = s.raised(top);
                    (
                        DeskModel {
                            mode: ModeModel::TerminalFocus { app_idx: r.last_idx() },
                            ..r
                        },
                        OutcomeModel::Done(true),
                    )
                },
                None => s.clicked(now),
            },
        }
    }

    /// The window with an interactive program whose inside the pointer is in.
    pub open spec fn program_pointed(self) -> Option<usize> {
        match front(self.apps, self.desktop, Some((self.pointer.x, self.pointer.y))) {
            Some(top) => match (window_of(self.apps, top), terminal_of(self.apps, top)) {
                (Some(w), Some(t)) => if t.interactive && in_body(w, self.pointer) {
                    Some(top)
                } else {
                    None
                },
                _ => None,
            },
            None => None,
        }
    }

    /// A press of the right button raises the window under the pointer.
    pub open spec fn right_pressed(self) -> (DeskModel, bool) {
        match front(self.apps, self.desktop, Some((self.pointer.x, self.pointer.y))) {
            Some(top) => (
                DeskModel { mode: ModeModel::Normal, ..self.raised(top).tabs_fitted() },
                true,
            ),
            None => (self, false),
        }
    }

    /// Whether the pointer is on the rail and there are more tabs than it shows.
    pub open spec fn rail_turns(self) -> bool {
        let bottom = bar_bottom(self.size.1);
        let total = minimized(self.apps, self.desktop).len();
        let tab: int = if (total % 0x10000) * 8 <= bottom {
            8
        } else {
            6
        };
        let room: int = if bottom as int / tab >= 1 {
            bottom as int / tab
        } else {
            1
        };
        self.pointer.x == bar_x(self.size.0) && 1 <= self.pointer.y <= bottom && total > room
    }

    /// The help whose inside the pointer is in.
    pub open spec fn help_pointed(self) -> Option<usize> {
        match self.help_at() {
            Some(i) => if window_of(self.apps, i) matches Some(w) && in_body(w, self.pointer) {
                Some(i)
            } else {
                None
            },
            None => None,
        }
    }

    /// The terminal under the pointer.
    pub open spec fn terminal_pointed(self) -> Option<usize> {
        match front(self.apps, self.desktop, Some((self.pointer.x, self.pointer.y))) {
            Some(top) => if terminal_of(self.apps, top) is Some {
                Some(top)
            } else {
                None
            },
            None => None,
        }
    }

    /// The wheel turned: over the rail, the help, a terminal, or for the commands of
    /// the dock.
    pub open spec fn wheeled(self, up: bool) -> (DeskModel, bool) {
        if self.rail_turns() {
            if up {
                (DeskModel { tab_scroll: one_off(self.tab_scroll, false), ..self }, true)
            } else {
                (self.tabs_scrolled_on(), true)
            }
        } else if self.help_pointed() is Some {
            let i = self.help_pointed()->0;
            let at = self.apps[i as int].help->0.scroll;
            (self.help_scrolled(i, help_row(at, !up, 1, self.help_room(i).1, true)), true)
        } else if self.terminal_pointed() is Some {
            let i = self.terminal_pointed()->0;
            (self.panel_moved(i, up), true)
        } else if self.commands.len() > 0 {
            (DeskModel { panel_scroll: one_off(self.panel_scroll, up), ..self }, true)
        } else {
            (self, false)
        }
    }

    /// What terminal `i` shows, moved back or on.
    pub open spec fn panel_moved(self, i: usize, up: bool) -> DeskModel {
        match terminal_of(self.apps, i) {
            Some(t) => self.with_terminal(
                i,
                TermStateModel { panel_scroll: one_off(t.panel_scroll, up), ..t },
            ),
            None => self,
        }
    }

    /// The size that the pointer gives window `i`.
    pub open spec fn window_sized(self, i: usize) -> DeskModel {
        match window_of(self.apps, i) {
            Some(w) => {
                let (width, height) = preview_size(w, self.pointer);
                DeskModel {
                    apps: self.apps.update(
                        i as int,
                        self.apps[i as int].with_window(Window { width, height, ..w }),
                    ),
                    ..self
                }
            },
            None => self,
        }
    }

    /// The pointer at the cell of an event.
    pub open spec fn pointer_taken(self, ev: MouseEvent, now: u64) -> DeskModel {
        let (x, y) = cell_of(ev);
        DeskModel {
            last_mouse: Some(now),
            pointer: Pointer { x, y }.clamped(self.size.0, self.size.1),
            ..self
        }
    }

    /// Whether an event begins a selection: the left button dragged away from where
    /// it went down, while keys go to the desktop.
    pub open spec fn drag_begins(self, ev: MouseEvent) -> bool {
        &&& ev.kind == MouseAction::Drag
        &&& ev.button == MouseButton::Left
        &&& self.mode is Normal
        &&& self.mouse_down matches Some(down) && distance(cell_of(ev), down) >= DRAG_THRESHOLD
    }

    /// The selection from where the button went down to a cell.
    pub open spec fn selected_to(self, at: (u16, u16)) -> DeskModel {
        let down = match self.mouse_down {
            Some(d) => d,
            None => at,
        };
        DeskModel {
            mouse_selecting: true,
            sel_pos: Some(at),
            sel: Some(
                BoxSelect {
                    anchor: (down.1 as usize, down.0 as usize),
                    extent: (at.1 as usize, at.0 as usize),
                },
            ),
            ..self
        }
    }

    /// The pointer moved, with or without a button held.
    pub open spec fn mouse_moved(self, ev: MouseEvent, moved: bool) -> (DeskModel, bool) {
        if ev.kind == MouseAction::Move && self.mouse_selecting {
            (self.released(), true)
        } else if self.mouse_selecting || self.drag_begins(ev) {
            (self.selected_to(cell_of(ev)), true)
        } else {
            match self.menu_at() {
                Some(i) => match self.entry_pointed(i) {
                    Some(e) => (self.entry_selected(i, e), true),
                    None => (self, moved),
                },
                None => (self, moved),
            }
        }
    }

    /// A button went up.
    pub open spec fn button_up(self, moved: bool) -> (DeskModel, bool) {
        let s = self.released();
        if self.mouse_selecting {
            (s, true)
        } else {
            match s.mode {
                ModeModel::Moving { .. } => (DeskModel { mode: ModeModel::Normal, ..s }, true),
                ModeModel::Resizing { app_idx, .. } => (
                    DeskModel { mode: ModeModel::Normal, ..s.window_sized(app_idx) },
                    true,
                ),
                _ => (s, moved),
            }
        }
    }

    /// An event of the mouse.
    pub open spec fn moused(self, ev: MouseEvent, now: u64) -> (DeskModel, OutcomeModel) {
        let at = cell_of(ev);
        let moved = self.pointer.x != at.0 || self.pointer.y != at.1;
        let s = self.pointer_taken(ev, now);
        match ev.kind {
            MouseAction::Move | MouseAction::Drag => {
                let (t, b) = s.mouse_moved(ev, moved);
                (t, OutcomeModel::Done(b))
            },
            MouseAction::Release => {
                let (t, b) = s.button_up(moved);
                (t, OutcomeModel::Done(b))
            },
            MouseAction::Press => match ev.button {
                MouseButton::WheelUp => {
                    let (t, b) = s.wheeled(true);
                    (t, OutcomeModel::Done(b))
                },
                MouseButton::WheelDown => {
                    let (t, b) = s.wheeled(false);
                    (t, OutcomeModel::Done(b))
                },
                MouseButton::Left => DeskModel {
                    mouse_down: Some(at),
                    mouse_selecting: false,
                    ..s
                }.left_pressed(now),
                MouseButton::Right => {
                    let (t, b) = s.released().right_pressed();
                    (t, OutcomeModel::Done(b))
                },
                MouseButton::Middle => (s.released(), OutcomeModel::Done(false)),
            },
        }
    }

    /// An event of the mouse on its way to the program of terminal `i`.
    pub open spec fn mouse_forwarded(self, i: usize, ev: MouseEvent) -> DeskModel {
        match terminal_of(self.apps, i) {
            Some(t) => if t.session matches Some(s) && s.real_pty {
                self.wrote(t, encode_utf8(mouse_report(ev)))
            } else {
                self
            },
            None => self,
        }
    }
}

impl Desktop {
    /// Takes a press of the left button at the pointer.
    pub fn mouse_left_press(&mut self, now: u64) -> (r: Outcome)
        requires
            old(self).wf(),
        ensures
            (final(self)@, r@) == old(self)@.left_pressed(now),
            final(self).wf(),
    {
        self.deselect();
        self.dismiss_help_on_outside_press();
        match self.press_menu() {
            Some(out) => {
                return out;
            },
            None => {},
        }
        match self.find_program() {
            Some(top) => {
                let r = self.raise(top);
                let ghost t = self@;
                self.mode = Mode::TerminalFocus { app_idx: r };
                assert(self@ =~= (DeskModel {
                    mode: ModeModel::TerminalFocus { app_idx: r },
                    ..t
                }));
                Outcome::Done(true)
            },
            None => self.space_action(now),
        }
    }

    fn find_program(&self) -> (r: Option<usize>)
        ensures
            r == self@.program_pointed(),
            r matches Some(i) ==> i < self@.apps.len(),
    {
        match topmost_window_at(
            &self.applications,
            self.current_desktop,
            self.pointer.x,
            self.pointer.y,
        ) {
            Some(top) => {
                assert(self@.apps[top as int] == self.applications@[top as int]@);
                match (find_window(&self.applications, top), &self.applications[top].terminal) {
                    (Some(w), Some(t)) => {
                        if t.interactive && is_in_body(&w, &self.pointer) {
                            Some(top)
                        } else {
                            None
                        }
                    },
                    _ => None,
                }
            },
            None => None,
        }
    }

    /// Raises the window under the pointer.
    pub fn mouse_right_press(&mut self) -> (changed: bool)
        requires
            old(self).wf(),
        ensures
            (final(self)@, changed) == old(self)@.right_pressed(),
            final(self).wf(),
    {
        match topmost_window_at(
            &self.applications,
            self.current_desktop,
            self.pointer.x,
            self.pointer.y,
        ) {
            Some(top) => {
                self.raise(top);
                self.fit_tabs();
                let ghost t = self@;
                self.mode = Mode::Normal;
                assert(self@ =~= (DeskModel { mode: ModeModel::Normal, ..t }));
                true
            },
            None => false,
        }
    }

    fn does_rail_turn(&self) -> (r: bool)
        ensures
            r == self@.rail_turns(),
    {
        let bottom: u16 = self.last_size.1.saturating_sub(4);
        let total: usize = minimized_list(&self.applications, self.current_desktop).len();
        let tab: u16 = if (total % 0x10000) as u32 * 8 <= bottom as u32 {
            8
        } else {
            6
        };
        let room: u16 = if bottom / tab >= 1 {
            bottom / tab
        } else {
            1
        };
        self.pointer.x == self.last_size.0.saturating_sub(1) && 1 <= self.pointer.y
            && self.pointer.y <= bottom && total > room as usize
    }

    /// Moves what a terminal shows back or on.
    pub(crate) fn move_panel(&mut self, app_idx: usize, up: bool) -> (found: bool)
        requires
            old(self).wf(),
        ensures
            final(self)@ == old(self)@.panel_moved(app_idx, up),
            found == (terminal_of(old(self)@.apps, app_idx) is Some),
            final(self).wf(),
    {
        let mut found = false;
        match terminal_mut(&mut self.applications, app_idx) {
            Some(t) => {
                let ghost m = t@;
                t.panel_scroll = move_count(t.panel_scroll, up);
                assert(t@ =~= (TermStateModel { panel_scroll: one_off(m.panel_scroll, up), ..m }));
                found = true;
            },
            None => {},
        }
        assert(self@ =~= old(self)@.panel_moved(app_idx, up));
        found
    }

    /// Takes a turn of the wheel.
    pub fn mouse_scroll(&mut self, up: bool) -> (changed: bool)
        requires
            old(self).wf(),
        ensures
            (final(self)@, changed) == old(self)@.wheeled(up),
            final(self).wf(),
    {
        if self.does_rail_turn() {
            if up {
                self.tab_scroll = move_count(self.tab_scroll, false);
                assert(self@ =~= old(self)@.wheeled(up).0);
            } else {
                self.scroll_tabs_on();
            }
            return true;
        }
        match self.help_idx() {
            Some(i) => match find_window(&self.applications, i) {
                Some(w) => {
                    if is_in_body(&w, &self.pointer) {
                        let (_, limit) = self.room_of_help(i);
                        self.scroll_help(i, !up, 1, limit, true);
                        return true;
                    }
                },
                None => {},
            },
            None => {},
        }
        match topmost_window_at(
            &self.applications,
            self.current_desktop,
            self.pointer.x,
            self.pointer.y,
        ) {
            Some(top) => {
                if self.move_panel(top, up) {
                    return true;
                }
            },
            None => {},
        }
        if self.commands.len() > 0 {
            self.panel_scroll = move_count(self.panel_scroll, up);
            assert(self@ =~= old(self)@.wheeled(up).0);
            return true;
        }
        false
    }

    /// Gives a window the size that the pointer stands for.
    pub(crate) fn size_window(&mut self, i: usize)
        requires
            old(self).wf(),
        ensures
            final(self)@ == old(self)@.window_sized(i),
            final(self).wf(),
    {
        let p = self.pointer;
        match window_mut_of(&mut self.applications, i) {
            Some(w) => {
                let (width, height) = resize_preview_size(w, &p);
                w.width = width;
                w.height = height;
            },
            None => {},
        }
        assert(self@ =~= old(self)@.window_sized(i));
    }

    fn move_mouse(&mut self, ev: MouseEvent, moved: bool) -> (changed: bool)
        requires
            old(self).wf(),
        ensures
            (final(self)@, changed) == old(self)@.mouse_moved(ev, moved),
            final(self).wf(),
    {
        let at: (u16, u16) = (ev.x.saturating_sub(1), ev.y.saturating_sub(1));
        if ev.kind == MouseAction::Move && self.mouse_selecting {
            self.release();
            return true;
        }
        let begins = ev.kind == MouseAction::Drag && ev.button == MouseButton::Left && matches!(
            self.mode,
            Mode::Normal
        ) && match self.mouse_down {
            Some(down) => distance_of(at, down) >= DRAG_THRESHOLD as u32,
            None => false,
        };
        if self.mouse_selecting || begins {
            let down = match self.mouse_down {
                Some(d) => d,
                None => at,
            };
            self.mouse_selecting = true;
            self.sel_pos = Some(at);
            self.sel = Some(
                BoxSelect {
                    anchor: (down.1 as usize, down.0 as usize),
                    extent: (at.1 as usize, at.0 as usize),
                },
            );
            assert(self@ =~= old(self)@.selected_to(at));
            return true;
        }
        match self.start_menu_idx() {
            Some(i) => match self.menu_item_under_pointer(i) {
                Some(e) => {
                    self.select_menu_item(i, e);
                    true
                },
                None => moved,
            },
            None => moved,
        }
    }

    fn lift_button(&mut self, moved: bool) -> (changed: bool)
        requires
            old(self).wf(),
        ensures
            (final(self)@, changed) == old(self)@.button_up(moved),
            final(self).wf(),
    {
        let selecting = self.mouse_selecting;
        self.release();
        if selecting {
            return true;
        }
        let ghost s = self@;
        let mut sized: Option<usize> = None;
        let mut held = false;
        match &self.mode {
            Mode::Moving { .. } => {
                held = true;
            },
            Mode::Resizing { app_idx, .. } => {
                held = true;
                sized = Some(*app_idx);
            },
            _ => {},
        }
        if !held {
            return moved;
        }
        match sized {
            Some(i) => self.size_window(i),
            None => {},
        }
        let ghost t = self@;
        self.mode = Mode::Normal;
        assert(self@ =~= (DeskModel { mode: ModeModel::Normal, ..t }));
        true
    }

    /// Takes an event of the mouse.
    pub fn handle_mouse(&mut self, ev: MouseEvent, now: u64) -> (r: Outcome)
        requires
            old(self).wf(),
        ensures
            (final(self)@, r@) == old(self)@.moused(ev, now),
            final(self).wf(),
    {
        let at: (u16, u16) = (ev.x.saturating_sub(1), ev.y.saturating_sub(1));
        let moved = self.pointer.x != at.0 || self.pointer.y != at.1;
        self.last_mouse = Some(now);
        self.pointer = Pointer::new(at.0, at.1);
        self.pointer.clamp_to_bounds(self.last_size.0, self.last_size.1);
        assert(self@ =~= old(self)@.pointer_taken(ev, now));
        let ghost s = self@;
        match ev.kind {
            MouseAction::Move | MouseAction::Drag => {
                let b = self.move_mouse(ev, moved);
                Outcome::Done(b)
            },
            MouseAction::Release => {
                let b = self.lift_button(moved);
                Outcome::Done(b)
            },
            MouseAction::Press => match ev.button {
                MouseButton::WheelUp => {
                    let b = self.mouse_scroll(true);
                    Outcome::Done(b)
                },
                MouseButton::WheelDown => {
                    let b = self.mouse_scroll(false);
                    Outcome::Done(b)
                },
                MouseButton::Left => {
                    self.mouse_down = Some(at);
                    self.mouse_selecting = false;
                    assert(self@ =~= (DeskModel {
                        mouse_down: Some(at),
                        mouse_selecting: false,
                        ..s
                    }));
                    self.mouse_left_press(now)
                },
                MouseButton::Right => {
                    self.release();
                    let b = self.mouse_right_press();
                    Outcome::Done(b)
                },
                MouseButton::Middle => {
                    self.release();
                    Outcome::Done(false)
                },
            },
        }
    }

    /// Passes an event of the mouse on to the program of a terminal.
    pub fn forward_mouse(&mut self, app_idx: usize, ev: MouseEvent) -> (changed: bool)
        requires
            old(self).wf(),
        ensures
            final(self)@ == old(self)@.mouse_forwarded(app_idx, ev),
            changed,
            final(self).wf(),
    {
        if app_idx < self.applications.len() {
            assert(self@.apps[app_idx as int] == self.applications@[app_idx as int]@);
            match &self.applications[app_idx].terminal {
                Some(t) => match t.shell_session {
                    Some(s) => {
                        if s.real_pty {
                            match mouse_to_bytes(ev) {
                                Some(bytes) => self.write(s.id, bytes),
                                None => {},
                            }
                        }
                    },
                    None => {},
                },
                None => {},
            }
        }
        true
    }
}

/// A move without a button never changes a selection; it ends one whose button was
/// not seen to go up.
pub proof fn lemma_hover_keeps_selection(d: DeskModel, ev: MouseEvent, now: u64)
    requires
        ev.kind == MouseAction::Move,
    ensures
        d.moused(ev, now).0.sel == d.sel,
        !d.moused(ev, now).0.mouse_selecting,
        d.mouse_selecting ==> d.moused(ev, now).0.mouse_down is None,
{
}

/// A drag shorter than the threshold selects nothing.
pub proof fn lemma_short_drag(d: DeskModel, ev: MouseEvent, now: u64)
    requires
        ev.kind == MouseAction::Drag,
        !d.mouse_selecting,
        d.mouse_down matches Some(down) ==> distance(cell_of(ev), down) < DRAG_THRESHOLD,
    ensures
        d.moused(ev, now).0.sel == d.sel,
        !d.moused(ev, now).0.mouse_selecting,
{
}

/// A drag selects from where the button went down to where the pointer is; when the
/// button goes up the selection stays.
pub proof fn lemma_drag_selects(d: DeskModel, ev: MouseEvent, up: MouseEvent, now: u64)
    requires
        ev.kind == MouseAction::Drag,
        ev.button == MouseButton::Left,
        d.mode is Normal,
        d.mouse_down matches Some(down) && distance(cell_of(ev), down) >= DRAG_THRESHOLD,
        up.kind == MouseAction::Release,
    ensures
        ({
            let s = d.moused(ev, now).0;
            let t = s.moused(up, now).0;
            let down = d.mouse_down->0;
            &&& s.mouse_selecting
            &&& s.sel == Some(
                BoxSelect {
                    anchor: (down.1 as usize, down.0 as usize),
                    extent: (cell_of(ev).1 as usize, cell_of(ev).0 as usize),
                },
            )
            &&& t.sel == s.sel
            &&& !t.mouse_selecting
            &&& t.mouse_down is None
        }),
{
}

} // verus!

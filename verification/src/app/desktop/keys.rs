//! What keys do on the desktop and while a window is moved or sized, and where each
//! key goes.
use vstd::prelude::*;
use vstd::string::*;
use crate::app::desktop::frame::{arrow_dir, direction};
use crate::app::desktop::windows::DOUBLE_MILLIS;
use crate::app::desktop::{
    find_window, is_within, terminal_of, window_mut_of, window_of, within, Ask, AskModel,
    DeskModel, Desktop, Outcome, OutcomeModel,
};
use crate::app::apps;
use crate::config::Action;
use crate::num::{max16, min16};
use crate::os::Key;
use crate::text::is_empty;
use crate::ui::pointer::Pointer;
use crate::ui::render::{bar_bottom, bar_x};
use crate::ui::window::Window;
use crate::ui::CMD_INPUT_X;
use crate::wm::{
    apply_resize_edit, edit_applied, minimized, minimized_list, move_active_window_to_desktop,
    moves, on_target, raised, tab_layout, tabs, EditModel, Mode, ModeModel, ResizeAxis,
    ResizeEditState, ResizeOp,
};

verus! {

/// The pointer after an arrow key, where it is one.
pub open spec fn arrow_moved(p: Pointer, key: Key, size: (u16, u16)) -> Option<Pointer> {
    match key {
        Key::Up => Some(p.up()),
        Key::Down => Some(p.down(size.1)),
        Key::Left => Some(p.left()),
        Key::Right => Some(p.right(size.0)),
        _ => None,
    }
}

/// The number of a desktop that a digit stands for.
pub open spec fn digit_desktop(c: char) -> usize {
    match c {
        '1' => 1,
        '2' => 2,
        '3' => 3,
        _ => 4,
    }
}

/// A key while a size is typed: the new state of what is typed, and whether it
/// changed; nothing where it ends.
pub open spec fn size_typed(e: EditModel, key: Key) -> Option<(EditModel, bool)> {
    match key {
        Key::Char(' ') => Some((e, false)),
        Key::Char('+') if e.op is None => Some(
            (EditModel { op: Some(ResizeOp::Add), ..e }, true),
        ),
        Key::Char('-') if e.op is None => Some(
            (EditModel { op: Some(ResizeOp::Sub), ..e }, true),
        ),
        Key::Char('=') if e.op is None => Some(
            (EditModel { op: Some(ResizeOp::Assign), ..e }, true),
        ),
        Key::Char(c) => if e.op is Some && '0' <= c <= '9' {
            Some((EditModel { value: e.value.push(c), ..e }, true))
        } else {
            None
        },
        Key::Backspace if e.op is Some && e.value.len() > 0 => Some(
            (EditModel { value: e.value.drop_last(), ..e }, true),
        ),
        _ => None,
    }
}

impl DeskModel {
    /// The pointer on the input of the dock.
    pub open spec fn at_dock(self) -> DeskModel {
        DeskModel { pointer: Pointer { x: CMD_INPUT_X, y: (self.size.1 - 2) as u16 }, ..self }
    }

    /// A key on the desktop.
    pub open spec fn desktop_key(self, key: Key, now: u64) -> (DeskModel, OutcomeModel) {
        match key {
            Key::Escape if self.sel is Some => (
                self.deselected().released(),
                OutcomeModel::Done(true),
            ),
            Key::Enter if self.sel is Some => (self.copied(), OutcomeModel::Done(true)),
            Key::ShiftUp | Key::ShiftDown | Key::ShiftLeft | Key::ShiftRight => (
                self.selection_extended(direction(key)),
                OutcomeModel::Done(true),
            ),
            Key::AltUp | Key::AltDown | Key::AltLeft | Key::AltRight => (
                self,
                OutcomeModel::Ask(AskModel::HeldArrows { key }),
            ),
            Key::Home => (self.at_dock(), OutcomeModel::Done(false)),
            Key::Char(':') => (self.at_dock().typing(), OutcomeModel::Done(true)),
            Key::Char(' ') | Key::Enter => self.clicked(now),
            Key::Char(c) => if '1' <= c <= '4' {
                (self.switched(digit_desktop(c)), OutcomeModel::Done(true))
            } else {
                (self, OutcomeModel::Done(false))
            },
            _ => (self.pointer_stepped(key), OutcomeModel::Done(false)),
        }
    }

    /// The pointer moved by an arrow key.
    pub open spec fn pointer_stepped(self, key: Key) -> DeskModel {
        match arrow_moved(self.pointer, key, self.size) {
            Some(pointer) => DeskModel { pointer, ..self },
            None => self,
        }
    }

    /// A key while window `i` is moved.
    pub open spec fn moving_key(self, i: usize, key: Key, now: u64) -> (DeskModel, bool) {
        match key {
            Key::Char(' ') | Key::Enter => {
                let s = DeskModel { last_space: None, mode: ModeModel::Normal, ..self };
                if within(self.last_space, now, DOUBLE_MILLIS as int) && i < s.apps.len() {
                    (
                        s.shown(i, s.apps[i as int].display.maximized(s.size.0, s.size.1)),
                        true,
                    )
                } else {
                    (s, true)
                }
            },
            _ => (self.pointer_stepped(key), false),
        }
    }

    pub open spec fn with_edit(self, i: usize, edit: Option<EditModel>) -> DeskModel {
        DeskModel { mode: ModeModel::Resizing { app_idx: i, edit }, ..self }
    }

    /// The typed size of window `i` given to it: the pointer goes where the corner
    /// is to be.
    pub open spec fn edit_taken(self, i: usize, e: EditModel) -> DeskModel {
        match window_of(self.apps, i) {
            Some(w) => if e.value.len() > 0 {
                match edit_applied(w, self.pointer, self.size.0, self.size.1, e) {
                    Some(p) => DeskModel { pointer: p.clamped(self.size.0, self.size.1), ..self },
                    None => self,
                }
            } else {
                self
            },
            None => self,
        }
    }

    /// A key while window `i` is sized.
    pub open spec fn sizing_key(self, i: usize, edit: Option<EditModel>, key: Key) -> (
        DeskModel,
        bool,
    ) {
        match (key, edit) {
            (Key::Escape, Some(_)) => (self.with_edit(i, None), true),
            (Key::Escape, None) => (DeskModel { mode: ModeModel::Normal, ..self }, true),
            (Key::Char('x'), _) | (Key::Char('h'), _) => (
                self.with_edit(i, Some(blank_edit(ResizeAxis::Width))),
                true,
            ),
            (Key::Char('y'), _) | (Key::Char('v'), _) => (
                self.with_edit(i, Some(blank_edit(ResizeAxis::Height))),
                true,
            ),
            (Key::Enter, Some(e)) => (self.edit_taken(i, e).with_edit(i, None), true),
            (_, Some(e)) => match size_typed(e, key) {
                Some((f, b)) => (self.with_edit(i, Some(f)), b),
                None => (self.with_edit(i, None), true),
            },
            (Key::Char(' '), None) | (Key::Enter, None) => (
                DeskModel { mode: ModeModel::Normal, ..self.window_sized(i) },
                true,
            ),
            (_, None) => (self.pointer_stepped(key), false),
        }
    }

    /// The active window taken to another desktop.
    pub open spec fn window_taken(self, to: usize) -> (DeskModel, bool) {
        match moves(self.apps, self.mode, self.desktop, to) {
            Some(i) => {
                let a = self.apps;
                let s = DeskModel {
                    apps: raised(a.update(i as int, a[i as int].on(to)), i as int),
                    desktop: to,
                    ..self
                }.tabs_fitted();
                (
                    DeskModel {
                        mode: if on_target(s.mode, s.apps, to) {
                            s.mode
                        } else {
                            ModeModel::Normal
                        },
                        ..s
                    },
                    true,
                )
            },
            None => (self, false),
        }
    }

    /// Whether an interactive program has the focus.
    pub open spec fn in_program(self) -> Option<usize> {
        match self.mode {
            ModeModel::TerminalFocus { app_idx } => if terminal_of(self.apps, app_idx) matches Some(
                t,
            ) && t.interactive {
                Some(app_idx)
            } else {
                None
            },
            _ => None,
        }
    }

    /// A key by the mode.
    pub open spec fn mode_key(self, key: Key, now: u64) -> (DeskModel, OutcomeModel) {
        match self.mode {
            ModeModel::Normal => self.desktop_key(key, now),
            ModeModel::Typing => self.dock_key(key),
            ModeModel::Moving { app_idx, .. } => {
                let (s, b) = self.moving_key(app_idx, key, now);
                (s, OutcomeModel::Done(b))
            },
            ModeModel::Resizing { app_idx, edit } => {
                let (s, b) = self.sizing_key(app_idx, edit, key);
                (s, OutcomeModel::Done(b))
            },
            ModeModel::TerminalFocus { app_idx } => self.focus_key(app_idx, key),
        }
    }

    /// The keys that do the same in every mode, and the others by the mode.
    pub open spec fn plain_key(self, key: Key, now: u64) -> (DeskModel, OutcomeModel) {
        let to: usize = match key {
            Key::Ctrl1 => 1,
            Key::Ctrl2 => 2,
            Key::Ctrl3 => 3,
            Key::Ctrl4 => 4,
            _ => 0,
        };
        if to > 0 {
            let (s, b) = self.window_taken(to);
            (s, OutcomeModel::Done(b))
        } else if key == Key::CtrlC {
            if self.sel is Some {
                (self.copied(), OutcomeModel::Done(true))
            } else {
                match self.mode {
                    ModeModel::TerminalFocus { app_idx } => {
                        let (s, b) = self.interrupted(app_idx);
                        (s, OutcomeModel::Done(b))
                    },
                    _ => (self, OutcomeModel::Done(false)),
                }
            }
        } else {
            self.mode_key(key, now)
        }
    }

    /// A key on the desktop that the start menu or the help takes.
    pub open spec fn overlay_key(self, key: Key) -> Option<(DeskModel, OutcomeModel)> {
        if !(self.mode is Normal) {
            None
        } else {
            let by_menu = match self.menu_at() {
                Some(i) => self.menu_key(i, key),
                None => None,
            };
            match by_menu {
                Some(r) => Some(r),
                None => match self.help_at() {
                    Some(i) => match self.help_key(i, key) {
                        Some(s) => Some((s, OutcomeModel::Done(true))),
                        None => None,
                    },
                    None => None,
                },
            }
        }
    }

    /// A key: for an interactive program, of the mouse, a shortcut, for the start
    /// menu or the help, or by the mode.
    pub open spec fn key_handled(self, key: Key, now: u64) -> (DeskModel, OutcomeModel) {
        match self.in_program() {
            Some(i) => self.program_key(i, key, now),
            None => match key {
                Key::Mouse(ev) => self.moused(ev, now),
                _ => match self.config.resolved(key) {
                    Some(action) => self.acted(action),
                    None => match self.overlay_key(key) {
                        Some(r) => r,
                        None => self.plain_key(key, now),
                    },
                },
            },
        }
    }

    /// What follows input: the pointer keeps off the rail unless there are tabs to
    /// scroll, and a window that is moved follows it.
    pub open spec fn settled(self) -> DeskModel {
        let rail = bar_x(self.size.0);
        let s = if self.mode is Normal && self.pointer.x == rail {
            let more = minimized(self.apps, self.desktop).len() > tabs(
                self.apps,
                self.desktop,
                self.size.1,
                self.tab_scroll,
            ).len();
            DeskModel {
                pointer: if more {
                    Pointer {
                        y: min16(max16(self.pointer.y, 1), bar_bottom(self.size.1)),
                        ..self.pointer
                    }
                } else {
                    Pointer {
                        x: if rail > 0 {
                            (rail - 1) as u16
                        } else {
                            0
                        },
                        ..self.pointer
                    }
                },
                ..self
            }
        } else {
            self
        };
        match s.mode {
            ModeModel::Moving { app_idx, offset_x } => match window_of(s.apps, app_idx) {
                Some(w) => DeskModel {
                    apps: s.apps.update(
                        app_idx as int,
                        s.apps[app_idx as int].with_window(
                            Window {
                                position_x: if s.pointer.x >= offset_x {
                                    (s.pointer.x - offset_x) as u16
                                } else {
                                    0
                                },
                                position_y: s.pointer.y,
                                ..w
                            },
                        ),
                    ),
                    ..s
                },
                None => s,
            },
            _ => s,
        }
    }

    /// One key read: quitting and a switched-off mouse come first.
    pub open spec fn stepped(self, key: Key, now: u64) -> (DeskModel, OutcomeModel) {
        if self.config.resolved(key) == Some(Action::Quit) {
            (DeskModel { quit: true, ..self.saved() }, OutcomeModel::Done(false))
        } else if !self.mouse_enabled && key is Mouse {
            (self, OutcomeModel::Done(false))
        } else {
            let (s, out) = self.key_handled(key, now);
            match out {
                OutcomeModel::Done(b) => {
                    let t = s.settled();
                    (t, OutcomeModel::Done(b || t.pointer != self.pointer))
                },
                OutcomeModel::Ask(_) => (s, out),
            }
        }
    }
}

/// A size of which nothing is typed yet.
pub open spec fn blank_edit(axis: ResizeAxis) -> EditModel {
    EditModel { axis, op: None, value: Seq::empty() }
}

fn new_edit(axis: ResizeAxis) -> (e: ResizeEditState)
    ensures
        e@ == blank_edit(axis),
{
    ResizeEditState { axis, op: None, value: String::new() }
}

fn drop_last_char(s: &str) -> (r: String)
    requires
        s@.len() > 0,
    ensures
        r@ == s@.drop_last(),
{
    let v = crate::text::chars_of(s);
    let r = crate::text::string_of(&v, 0, v.len() - 1);
    assert(r@ =~= s@.drop_last());
    r
}

fn type_size(e: &mut ResizeEditState, key: Key) -> (r: Option<bool>)
    ensures
        match size_typed(old(e)@, key) {
            Some((f, b)) => r == Some(b) && final(e)@ == f,
            None => r is None,
        },
{
    match key {
        Key::Char(' ') => Some(false),
        Key::Char(c) => {
            if e.op.is_none() {
                match c {
                    '+' => {
                        e.op = Some(ResizeOp::Add);
                    },
                    '-' => {
                        e.op = Some(ResizeOp::Sub);
                    },
                    '=' => {
                        e.op = Some(ResizeOp::Assign);
                    },
                    _ => {
                        return None;
                    },
                }
                return Some(true);
            }
            if '0' <= c && c <= '9' {
                e.value.push(c);
                return Some(true);
            }
            None
        },
        Key::Backspace => {
            if e.op.is_some() && !is_empty(e.value.as_str()) {
                e.value = drop_last_char(e.value.as_str());
                Some(true)
            } else {
                None
            }
        },
        _ => None,
    }
}

impl Desktop {
    fn step_pointer(&mut self, key: Key)
        requires
            old(self).wf(),
        ensures
            final(self)@ == old(self)@.pointer_stepped(key),
            final(self).wf(),
    {
        match key {
            Key::Up => self.pointer.move_up(),
            Key::Down => self.pointer.move_down(self.last_size.1),
            Key::Left => self.pointer.move_left(),
            Key::Right => self.pointer.move_right(self.last_size.0),
            _ => {},
        }
        assert(self@ =~= old(self)@.pointer_stepped(key));
    }

    fn point_at_dock(&mut self)
        requires
            old(self).wf(),
        ensures
            final(self)@ == old(self)@.at_dock(),
            final(self).wf(),
    {
        self.pointer = Pointer::new(CMD_INPUT_X, self.last_size.1 - 2);
        assert(self@ =~= old(self)@.at_dock());
    }

    /// Takes a key on the desktop.
    pub fn key_normal(&mut self, key: Key, now: u64) -> (r: Outcome)
        requires
            old(self).wf(),
        ensures
            (final(self)@, r@) == old(self)@.desktop_key(key, now),
            final(self).wf(),
    {
        if self.sel.is_some() {
            match key {
                Key::Escape => {
                    self.deselect();
                    self.release();
                    return Outcome::Done(true);
                },
                Key::Enter => {
                    self.copy_screen_selection();
                    return Outcome::Done(true);
                },
                _ => {},
            }
        }
        match key {
            Key::ShiftUp | Key::ShiftDown | Key::ShiftLeft | Key::ShiftRight => {
                self.extend_screen_selection(arrow_dir(key));
                Outcome::Done(true)
            },
            Key::AltUp | Key::AltDown | Key::AltLeft | Key::AltRight => Outcome::Ask(
                Ask::HeldArrows { key },
            ),
            Key::Home => {
                self.point_at_dock();
                Outcome::Done(false)
            },
            Key::Char(':') => {
                self.point_at_dock();
                let ghost s = self@;
                self.mode = Mode::Typing;
                self.panel_scroll = 0;
                assert(self@ =~= s.typing());
                Outcome::Done(true)
            },
            Key::Char(' ') | Key::Enter => self.space_action(now),
            Key::Char(c) => {
                if '1' <= c && c <= '4' {
                    let d: usize = match c {
                        '1' => 1,
                        '2' => 2,
                        '3' => 3,
                        _ => 4,
                    };
                    self.switch_desktop(d);
                    Outcome::Done(true)
                } else {
                    Outcome::Done(false)
                }
            },
            _ => {
                self.step_pointer(key);
                Outcome::Done(false)
            },
        }
    }

    /// Takes a key while a window is moved.
    pub fn key_moving(&mut self, key: Key, app_idx: usize, now: u64) -> (changed: bool)
        requires
            old(self).wf(),
        ensures
            (final(self)@, changed) == old(self)@.moving_key(app_idx, key, now),
            final(self).wf(),
    {
        match key {
            Key::Char(' ') | Key::Enter => {
                let twice = is_within(self.last_space_time, now, DOUBLE_MILLIS);
                self.last_space_time = None;
                self.mode = Mode::Normal;
                let ghost s = self@;
                assert(s =~= (DeskModel { last_space: None, mode: ModeModel::Normal, ..old(self)@ }));
                if twice && app_idx < self.applications.len() {
                    assert(s.apps[app_idx as int] == self.applications@[app_idx as int]@);
                    self.applications[app_idx].maximize(self.last_size.0, self.last_size.1);
                    assert(self@ =~= s.shown(
                        app_idx,
                        s.apps[app_idx as int].display.maximized(s.size.0, s.size.1),
                    ));
                    proof {
                        assert forall|k: int| 0 <= k < self@.apps.len() implies #[trigger] self@.apps[k].wf() by {
                            assert(s.apps[k].wf());
                        }
                    }
                }
                true
            },
            _ => {
                self.step_pointer(key);
                false
            },
        }
    }

    fn take_edit(&mut self, app_idx: usize, e: &ResizeEditState)
        requires
            old(self).wf(),
        ensures
            final(self)@ == old(self)@.edit_taken(app_idx, e@),
            final(self).wf(),
    {
        match find_window(&self.applications, app_idx) {
            Some(w) => {
                if !is_empty(e.value.as_str()) {
                    let mut p = self.pointer;
                    if apply_resize_edit(
                        &w,
                        &mut p,
                        self.last_size.0,
                        self.last_size.1,
                        e,
                    ) {
                        p.clamp_to_bounds(self.last_size.0, self.last_size.1);
                        self.pointer = p;
                        assert(self@ =~= old(self)@.edit_taken(app_idx, e@));
                    }
                }
            },
            None => {},
        }
    }

    fn set_edit(&mut self, app_idx: usize, edit: Option<ResizeEditState>)
        requires
            old(self).wf(),
        ensures
            final(self)@ == old(self)@.with_edit(
                app_idx,
                match edit {
                    Some(e) => Some(e@),
                    None => None,
                },
            ),
            final(self).wf(),
    {
        let ghost m = match &edit {
            Some(e) => Some(e@),
            None => None,
        };
        self.mode = Mode::Resizing { app_idx, edit };
        assert(self@ =~= old(self)@.with_edit(app_idx, m));
    }

    /// Takes a key while a window is sized. `edit` is the size being typed.
    pub fn key_resizing(&mut self, key: Key, app_idx: usize, edit: Option<ResizeEditState>) -> (
    changed: bool)
        requires
            old(self).wf(),
        ensures
            (final(self)@, changed) == old(self)@.sizing_key(
                app_idx,
                match edit {
                    Some(e) => Some(e@),
                    None => None,
                },
                key,
            ),
            final(self).wf(),
    {
        match key {
            Key::Char('x') | Key::Char('h') => {
                self.set_edit(app_idx, Some(new_edit(ResizeAxis::Width)));
                return true;
            },
            Key::Char('y') | Key::Char('v') => {
                self.set_edit(app_idx, Some(new_edit(ResizeAxis::Height)));
                return true;
            },
            _ => {},
        }
        match edit {
            Some(e) => {
                let mut e = e;
                match key {
                    Key::Escape => {
                        self.set_edit(app_idx, None);
                        true
                    },
                    Key::Enter => {
                        self.take_edit(app_idx, &e);
                        self.set_edit(app_idx, None);
                        true
                    },
                    _ => match type_size(&mut e, key) {
                        Some(b) => {
                            self.set_edit(app_idx, Some(e));
                            b
                        },
                        None => {
                            self.set_edit(app_idx, None);
                            true
                        },
                    },
                }
            },
            None => match key {
                Key::Escape => {
                    self.mode = Mode::Normal;
                    assert(self@ =~= (DeskModel { mode: ModeModel::Normal, ..old(self)@ }));
                    true
                },
                Key::Char(' ') | Key::Enter => {
                    self.size_window(app_idx);
                    let ghost s = self@;
                    self.mode = Mode::Normal;
                    assert(self@ =~= (DeskModel { mode: ModeModel::Normal, ..s }));
                    true
                },
                _ => {
                    self.step_pointer(key);
                    false
                },
            },
        }
    }
}

impl Desktop {
    fn move_to_desktop(&mut self, to: usize) -> (changed: bool)
        requires
            old(self).wf(),
        ensures
            (final(self)@, changed) == old(self)@.window_taken(to),
            final(self).wf(),
    {
        let b = move_active_window_to_desktop(
            &mut self.applications,
            &mut self.mode,
            &mut self.current_desktop,
            to,
            self.last_size.1,
            &mut self.tab_scroll,
        );
        assert(self@ =~= old(self)@.window_taken(to).0);
        b
    }

    fn resize_with_key(&mut self, key: Key, app_idx: usize) -> (changed: bool)
        requires
            old(self).wf(),
            old(self)@.mode matches ModeModel::Resizing { app_idx: i, .. } && i == app_idx,
        ensures
            (final(self)@, changed) == old(self)@.sizing_key(
                app_idx,
                old(self)@.mode->Resizing_edit,
                key,
            ),
            final(self).wf(),
    {
        let ghost d = self@;
        let mut edit: Option<ResizeEditState> = None;
        match &mut self.mode {
            Mode::Resizing { edit: slot, .. } => {
                edit = slot.take();
            },
            _ => {},
        }
        assert(self@ =~= d.with_edit(app_idx, None));
        proof {
            lemma_edit_held(d, app_idx, key);
        }
        self.key_resizing(key, app_idx, edit)
    }

    fn handle_mode_key(&mut self, key: Key, now: u64) -> (r: Outcome)
        requires
            old(self).wf(),
        ensures
            (final(self)@, r@) == old(self)@.mode_key(key, now),
            final(self).wf(),
    {
        let target = self.mode.target();
        let kind = ModeKind::of(&self.mode);
        match (kind, target) {
            (ModeKind::Typing, _) => self.key_typing(key),
            (ModeKind::Moving, Some(i)) => {
                let b = self.key_moving(key, i, now);
                Outcome::Done(b)
            },
            (ModeKind::Resizing, Some(i)) => {
                let b = self.resize_with_key(key, i);
                Outcome::Done(b)
            },
            (ModeKind::TerminalFocus, Some(i)) => self.key_terminal_focus(key, i),
            _ => self.key_normal(key, now),
        }
    }

    fn handle_plain_key(&mut self, key: Key, now: u64) -> (r: Outcome)
        requires
            old(self).wf(),
        ensures
            (final(self)@, r@) == old(self)@.plain_key(key, now),
            final(self).wf(),
    {
        let to: usize = match key {
            Key::Ctrl1 => 1,
            Key::Ctrl2 => 2,
            Key::Ctrl3 => 3,
            Key::Ctrl4 => 4,
            _ => 0,
        };
        if to > 0 {
            let b = self.move_to_desktop(to);
            return Outcome::Done(b);
        }
        if key == Key::CtrlC {
            if self.copy_screen_selection() {
                return Outcome::Done(true);
            }
            let focused = match &self.mode {
                Mode::TerminalFocus { app_idx } => Some(*app_idx),
                _ => None,
            };
            return match focused {
                Some(i) => {
                    let b = self.interrupt(i);
                    Outcome::Done(b)
                },
                None => Outcome::Done(false),
            };
        }
        self.handle_mode_key(key, now)
    }

    fn handle_overlay_key(&mut self, key: Key) -> (r: Option<Outcome>)
        requires
            old(self).wf(),
        ensures
            match (r, old(self)@.overlay_key(key)) {
                (Some(out), Some((d, o))) => final(self)@ == d && out@ == o,
                (None, None) => final(self)@ == old(self)@,
                _ => false,
            },
            final(self).wf(),
    {
        if !matches!(self.mode, Mode::Normal) {
            return None;
        }
        match self.start_menu_idx() {
            Some(i) => match self.key_menu(i, &key) {
                Some(out) => {
                    return Some(out);
                },
                None => {},
            },
            None => {},
        }
        match self.help_idx() {
            Some(i) => match self.key_help(i, &key) {
                Some(b) => Some(Outcome::Done(b)),
                None => None,
            },
            None => None,
        }
    }

    /// Takes a key.
    pub fn handle_key(&mut self, key: Key, now: u64) -> (r: Outcome)
        requires
            old(self).wf(),
        ensures
            (final(self)@, r@) == old(self)@.key_handled(key, now),
            final(self).wf(),
    {
        match self.focused_program() {
            Some(i) => {
                return self.key_interactive(i, key, now);
            },
            None => {},
        }
        match key {
            Key::Mouse(ev) => {
                return self.handle_mouse(ev, now);
            },
            _ => {},
        }
        match self.config.resolve(&key) {
            Some(action) => {
                return self.run_action(action);
            },
            None => {},
        }
        match self.handle_overlay_key(key) {
            Some(out) => {
                return out;
            },
            None => {},
        }
        self.handle_plain_key(key, now)
    }

    fn focused_program(&self) -> (r: Option<usize>)
        ensures
            r == self@.in_program(),
    {
        match &self.mode {
            Mode::TerminalFocus { app_idx } => {
                let i: usize = *app_idx;
                if i >= self.applications.len() {
                    return None;
                }
                assert(self@.apps[i as int] == self.applications@[i as int]@);
                match &self.applications[i].terminal {
                    Some(t) => {
                        if t.interactive {
                            Some(i)
                        } else {
                            None
                        }
                    },
                    None => None,
                }
            },
            _ => None,
        }
    }

    /// Does what follows input. `prev` is where the pointer was before it, and
    /// `changed` what came of it. Says whether to draw.
    pub fn settle(&mut self, prev: (u16, u16), changed: bool) -> (redraw: bool)
        requires
            old(self).wf(),
        ensures
            final(self)@ == old(self)@.settled(),
            redraw == (changed || final(self)@.pointer.x != prev.0 || final(self)@.pointer.y
                != prev.1),
            final(self).wf(),
    {
        let rail: u16 = self.last_size.0.saturating_sub(1);
        if self.pointer.x == rail && matches!(self.mode, Mode::Normal) {
            let count: usize = minimized_list(&self.applications, self.current_desktop).len();
            let shown: usize = tab_layout(
                &self.applications,
                self.current_desktop,
                self.last_size.1,
                self.tab_scroll,
            ).len();
            if count <= shown {
                self.pointer.x = rail.saturating_sub(1);
            } else {
                self.pointer.y = min16(max16(self.pointer.y, 1), self.last_size.1.saturating_sub(4));
            }
        }
        let ghost s = self@;
        let mut moved: Option<(usize, u16)> = None;
        match &self.mode {
            Mode::Moving { app_idx, offset_x } => {
                moved = Some((*app_idx, *offset_x));
            },
            _ => {},
        }
        match moved {
            Some((i, offset_x)) => {
                let p = self.pointer;
                match window_mut_of(&mut self.applications, i) {
                    Some(w) => {
                        w.position_x = p.x.saturating_sub(offset_x);
                        w.position_y = p.y;
                    },
                    None => {},
                }
            },
            None => {},
        }
        assert(self@ =~= old(self)@.settled());
        changed || self.pointer.x != prev.0 || self.pointer.y != prev.1
    }

    /// Takes a key that was read. What it asks for is answered by a method of its
    /// own, and `settle` comes behind that.
    pub fn step_input(&mut self, key: Key, now: u64) -> (r: Outcome)
        requires
            old(self).wf(),
        ensures
            (final(self)@, r@) == old(self)@.stepped(key, now),
            final(self).wf(),
    {
        if self.config.resolve(&key) == Some(Action::Quit) {
            self.save_session();
            let ghost s = self@;
            self.quit = true;
            assert(self@ =~= (DeskModel { quit: true, ..s }));
            return Outcome::Done(false);
        }
        if !self.mouse_enabled && matches!(key, Key::Mouse(_)) {
            return Outcome::Done(false);
        }
        let prev: (u16, u16) = (self.pointer.x, self.pointer.y);
        match self.handle_key(key, now) {
            Outcome::Done(b) => {
                let redraw = self.settle(prev, b);
                Outcome::Done(redraw)
            },
            Outcome::Ask(a) => Outcome::Ask(a),
        }
    }
}

proof fn lemma_edit_held(d: DeskModel, i: usize, key: Key)
    requires
        d.mode matches ModeModel::Resizing { app_idx, .. } && app_idx == i,
    ensures
        d.with_edit(i, None).sizing_key(i, d.mode->Resizing_edit, key) == d.sizing_key(
            i,
            d.mode->Resizing_edit,
            key,
        ),
{
    let edit = d.mode->Resizing_edit;
    let s = d.with_edit(i, None);
    if edit is None {
        assert(s =~= d);
    } else {
        assert(s.edit_taken(i, edit->0).with_edit(i, None) =~= d.edit_taken(i, edit->0).with_edit(
            i,
            None,
        ));
        assert(s.sizing_key(i, edit, key).0 =~= d.sizing_key(i, edit, key).0);
    }
}

/// Which mode it is.
#[derive(Debug, Clone, Copy, PartialEq, Eq, Structural)]
pub enum ModeKind {
    Normal,
    Typing,
    Moving,
    Resizing,
    TerminalFocus,
}

/// Which mode a mode is.
pub open spec fn mode_kind(m: ModeModel) -> ModeKind {
    match m {
        ModeModel::Normal => ModeKind::Normal,
        ModeModel::Typing => ModeKind::Typing,
        ModeModel::Moving { .. } => ModeKind::Moving,
        ModeModel::Resizing { .. } => ModeKind::Resizing,
        ModeModel::TerminalFocus { .. } => ModeKind::TerminalFocus,
    }
}

impl ModeKind {
    /// Which mode a mode is.
    pub fn of(mode: &Mode) -> (k: ModeKind)
        ensures
            k == mode_kind(mode@),
    {
        match mode {
            Mode::Normal => ModeKind::Normal,
            Mode::Typing => ModeKind::Typing,
            Mode::Moving { .. } => ModeKind::Moving,
            Mode::Resizing { .. } => ModeKind::Resizing,
            Mode::TerminalFocus { .. } => ModeKind::TerminalFocus,
        }
    }
}

} // verus!

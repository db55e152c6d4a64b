//! What clicks and shortcuts do to windows, the start menu and the help.
use vstd::prelude::*;
use vstd::string::*;
use crate::app::desktop::layout::shared_entries;
use crate::app::desktop::{
    find_window, help_mut, is_within, menu_mut, terminal_mut, terminal_of, window_of, with_terminal,
    within, Ask, AskModel, DeskModel, Desktop, Effect, EffectModel, Outcome, OutcomeModel,
};
use crate::app::terminal::{ShellSession, TermStateModel};
use crate::app::{apps, menu_items, AppModel, Application};
use crate::cmd::{entries, CommandEntry, EntryModel};
use crate::config::Action;
use crate::help::HelpModel;
use crate::menu::{
    item_cwd, item_program, with_args, MenuItem, MenuItemModel, MenuKind, MenuModel,
};
use crate::num::{max_len, min_len};
use crate::os::{HeldArrowKeys, Key};
use crate::text::{chars_of, is_empty, texts, trim};
use crate::ui::help_view::{help_limit, help_max_scroll};
use crate::ui::pointer::Pointer;
use crate::ui::render::{bar_bottom, bar_x, find_tab, on_start, tab_under, tab_x};
use crate::ui::window::Window;
use crate::ui::{
    button_at, desktop_at, CMD_INPUT_X, STATUS_START_LEN, STATUS_START_X, TERMINAL_PREFIX_LEN,
};
use crate::wm::{
    active, active_window_idx, bring_window_to_front, close_active_window, closes, covers,
    covers_cell, display_app, enter_active_resize_mode, find_first, first_of, focus_relative_window,
    focus_target, front, has_hscroll, help_toggled, interact_terminal_horizontal_scroll,
    interact_terminal_vertical_scroll, max_tab_scroll, maximize_toggled, menu_toggled,
    minimize_active_window, minimizes, next_id, opened, pointer_at, program_title, raised,
    region_for, resizes, resolve_snap_region, scrolled_h, scrolled_v, snap_active_window, snapped,
    snaps, spawn_interactive_terminal, spawn_terminal_window, split, split_active_terminal_window,
    split_path, split_target, tab_layout, tab_limit, tabs, terminal_place, terminal_title,
    toggle_active_maximize, toggle_help_window, toggle_start_menu, topmost_window_at, Mode,
    ModeModel, SplitDirection,
};

verus! {

/// Two clicks on a title within this time are one double click.
pub const DOUBLE_MILLIS: u64 = 300;

/// Whether the pointer is in the row of a terminal's input.
pub open spec fn on_input(a: AppModel, p: Pointer) -> bool {
    a.terminal is Some && (a.window() matches Some(w) && {
        &&& w.height >= 5
        &&& p.y == w.position_y + w.height - (if has_hscroll(w) {
            3int
        } else {
            2
        })
        &&& w.position_x < p.x < w.position_x + w.width - 1
    })
}

/// An application after a click on its window, and whether one of its scrollbars
/// took it.
pub open spec fn scroll_clicked(a: AppModel, p: Pointer) -> (AppModel, bool) {
    let (a, taken) = match a.window() {
        Some(w) => if w.fits() && w.inside_fits() && w.scroll_x < 0xffff && w.scroll_y < 0xffff {
            let (v, taken) = w.clicked(p.x as int, p.y as int);
            (a.with_window(v), taken)
        } else {
            (a, false)
        },
        None => (a, false),
    };
    if taken {
        (a, true)
    } else {
        let (a, taken) = scrolled_h(a, p.x, p.y);
        if taken {
            (a, true)
        } else {
            scrolled_v(a, p.x, p.y)
        }
    }
}

/// Whether the pointer is inside the border of a window.
pub open spec fn in_body(w: Window, p: Pointer) -> bool {
    w.position_x < p.x < w.position_x + w.width - 1 && w.position_y < p.y < w.position_y + w.height
        - 1
}

pub(crate) fn is_in_body(w: &Window, p: &Pointer) -> (r: bool)
    ensures
        r == in_body(*w, *p),
{
    p.x > w.position_x && (p.x as u32) + 1 < w.position_x as u32 + w.width as u32 && p.y
        > w.position_y && (p.y as u32) + 1 < w.position_y as u32 + w.height as u32
}

/// The entry of a menu that is in a row of its window.
pub open spec fn entry_at(w: Window, m: MenuModel, p: Pointer) -> Option<usize> {
    let row = p.y - w.position_y - 1;
    if in_body(w, p) && m.scroll + row < m.items.len() {
        Some((m.scroll + row) as usize)
    } else {
        None
    }
}

impl DeskModel {
    /// The session of application `i` ended.
    pub open spec fn ended(self, i: usize) -> DeskModel {
        match terminal_of(self.apps, i) {
            Some(t) => match t.session {
                Some(s) => self.with_terminal(i, TermStateModel { session: None, ..t }).emitted(
                    EffectModel::Kill { session: s.id },
                ),
                None => self,
            },
            None => self,
        }
    }

    /// Application `i` raised, behind all others in the list.
    pub open spec fn raised(self, i: usize) -> DeskModel {
        DeskModel { apps: raised(self.apps, i as int), ..self }
    }

    /// The place of the application that was raised.
    pub open spec fn last_idx(self) -> usize {
        (self.apps.len() - 1) as usize
    }

    /// A click on the rail beside the tabs scrolls them.
    pub open spec fn rail_clicked(self) -> DeskModel {
        let s = DeskModel { last_space: None, ..self };
        if self.pointer.y <= (1 + bar_bottom(self.size.1)) / 2 {
            DeskModel {
                tab_scroll: if s.tab_scroll > 0 {
                    (s.tab_scroll - 1) as usize
                } else {
                    0
                },
                ..s
            }
        } else {
            s.tabs_scrolled_on()
        }
    }

    /// The tabs scrolled by one, as far as they go.
    pub open spec fn tabs_scrolled_on(self) -> DeskModel {
        let limit = tab_limit(self.apps, self.desktop, self.size.1);
        DeskModel {
            tab_scroll: if self.tab_scroll + 1 <= limit {
                (self.tab_scroll + 1) as usize
            } else {
                limit
            },
            ..self
        }
    }

    /// A click on a tab brings its window back.
    pub open spec fn tab_clicked(self) -> (DeskModel, bool) {
        let s = DeskModel { last_space: None, ..self };
        let list = tabs(s.apps, s.desktop, s.size.1, s.tab_scroll);
        match tab_under(list, s.pointer, list.len() as int) {
            Some(t) => {
                let i = t.0;
                let m = s.apps[i as int];
                let s = DeskModel {
                    apps: s.apps.update(i as int, m.shown_as(m.display.restored())),
                    ..s
                }.raised(i).tabs_fitted();
                if terminal_of(s.apps, s.last_idx()) is Some {
                    (s.focused(s.last_idx()), true)
                } else {
                    (s, true)
                }
            },
            None => (s, false),
        }
    }

    /// A click on window `top`. It closes a menu or a help that it is not on, and
    /// does no more then.
    pub open spec fn window_pressed(self, top: usize, now: u64) -> (DeskModel, bool) {
        let menu = first_of(self.apps, self.desktop, false, self.apps.len() as int);
        let s = match menu {
            Some(m) => if m != top {
                self.dropped(m)
            } else {
                self
            },
            None => self,
        };
        let closed_menu = menu is Some && menu != Some(top);
        let help = s.help_at();
        let closes_help = help is Some && front(
            s.apps,
            s.desktop,
            Some((s.pointer.x, s.pointer.y)),
        ) != help;
        let t = if closes_help {
            s.dropped(help->0)
        } else {
            s
        };
        if closed_menu || closes_help {
            (t, true)
        } else {
            t.window_clicked(top, now)
        }
    }

    /// A click on window `top`: on a scrollbar, the input of a terminal, or the frame.
    pub open spec fn window_clicked(self, top: usize, now: u64) -> (DeskModel, bool) {
        let (a, taken) = scroll_clicked(self.apps[top as int], self.pointer);
        let s = DeskModel { apps: self.apps.update(top as int, a), ..self };
        if taken {
            (s, true)
        } else if on_input(a, s.pointer) {
            let r = s.raised(top);
            let i = r.last_idx();
            let interactive = a.terminal->0.interactive;
            (
                DeskModel {
                    mode: ModeModel::TerminalFocus { app_idx: i },
                    ..if interactive {
                        r
                    } else {
                        r.pointed_at(i)
                    }
                },
                true,
            )
        } else {
            s.frame_clicked(top, now)
        }
    }

    /// A click on the frame of window `top` or into it.
    pub open spec fn frame_clicked(self, top: usize, now: u64) -> (DeskModel, bool) {
        let a = self.apps[top as int];
        let w = a.window()->0;
        let p = self.pointer;
        let (left, right) = (p.x == w.position_x, p.x == w.right());
        let (upper, lower) = (p.y == w.position_y, p.y == w.bottom());
        let full = a.display is Maximized;
        if left && upper && w.minimizable {
            (self.shown(top, a.display.minimized()), true)
        } else if right && upper && w.closable {
            (self.ended(top).dropped(top), true)
        } else if right && lower && !full && w.resizable {
            (
                DeskModel { mode: ModeModel::Resizing { app_idx: top, edit: None }, ..self },
                true,
            )
        } else if upper && w.position_x < p.x < w.right() && w.draggable {
            let twice = within(self.last_space, now, DOUBLE_MILLIS as int);
            let s = DeskModel {
                last_space: if twice {
                    None
                } else {
                    Some(now)
                },
                ..self
            };
            if twice {
                (
                    s.shown(
                        top,
                        if full {
                            a.display.unmaximized()
                        } else {
                            a.display.maximized(s.size.0, s.size.1)
                        },
                    ),
                    true,
                )
            } else if !full {
                let r = s.raised(top);
                (
                    DeskModel {
                        mode: ModeModel::Moving {
                            app_idx: r.last_idx(),
                            offset_x: (p.x - w.position_x) as u16,
                        },
                        ..r
                    },
                    true,
                )
            } else {
                (s, false)
            }
        } else {
            let s = DeskModel { last_space: None, ..self };
            if top != s.last_idx() {
                (s.raised(top), true)
            } else {
                (s, false)
            }
        }
    }

    /// Application `i` shown in another way.
    pub open spec fn shown(self, i: usize, display: crate::app::DisplayMode) -> DeskModel {
        DeskModel {
            apps: self.apps.update(i as int, self.apps[i as int].shown_as(display)),
            ..self
        }
    }

    /// The input of the dock, ready to be typed into.
    pub open spec fn typing(self) -> DeskModel {
        DeskModel { mode: ModeModel::Typing, panel_scroll: 0, ..self }
    }

    /// A click at the pointer: on a button of a desktop, the input of the dock, the
    /// start button, the rail, a tab or a window.
    pub open spec fn clicked(self, now: u64) -> (DeskModel, OutcomeModel) {
        let p = self.pointer;
        let (w, h) = self.size;
        match button_at(p.x, p.y, w, h) {
            Some(d) => (self.switched(d), OutcomeModel::Done(true)),
            None => if p.y == h - 2 && p.x >= CMD_INPUT_X - TERMINAL_PREFIX_LEN {
                (self.typing(), OutcomeModel::Done(true))
            } else if on_start(p, h) {
                (self, OutcomeModel::Ask(AskModel::Menu))
            } else if p.x == bar_x(w) {
                (self.rail_clicked(), OutcomeModel::Done(true))
            } else if p.x >= tab_x(w) {
                let (s, b) = self.tab_clicked();
                (s, OutcomeModel::Done(b))
            } else {
                match front(self.apps, self.desktop, Some((p.x, p.y))) {
                    Some(top) => {
                        let (s, b) = self.window_pressed(top, now);
                        (s, OutcomeModel::Done(b))
                    },
                    None => (self, OutcomeModel::Done(false)),
                }
            },
        }
    }

    /// The pointer on the first entry of the start menu, where it is open.
    pub open spec fn parked(self) -> DeskModel {
        match self.menu_at() {
            Some(i) => match window_of(self.apps, i) {
                Some(w) => DeskModel {
                    pointer: pointer_at(
                        w.position_x + 1,
                        w.position_y + 1,
                        self.size.0,
                        self.size.1,
                    ),
                    ..self
                },
                None => self,
            },
            None => self,
        }
    }

    /// The start menu opened with its entries, or closed.
    pub open spec fn menu_toggled(self, items: Seq<MenuItemModel>) -> DeskModel {
        DeskModel {
            apps: menu_toggled(self.apps, self.desktop, self.size.1, items),
            ..self
        }.tabs_fitted().parked()
    }

    /// The help opened or closed.
    pub open spec fn help_toggled(self) -> DeskModel {
        DeskModel {
            apps: help_toggled(self.apps, self.desktop, self.size.0, self.size.1),
            ..self
        }.tabs_fitted()
    }

    /// A new terminal window.
    pub open spec fn terminal_opened(
        self,
        desktop: usize,
        path: Seq<char>,
        commands: Seq<EntryModel>,
        session: Option<ShellSession>,
    ) -> DeskModel {
        DeskModel {
            apps: opened(
                self.apps,
                AppModel::with_shell(
                    terminal_title(self.next_id),
                    terminal_place(self.size.0, self.size.1),
                    path,
                    commands,
                    session,
                ).on(desktop),
            ),
            next_id: next_id(self.next_id),
            ..self
        }
    }

    /// A new window with an interactive program.
    pub open spec fn program_opened(
        self,
        desktop: usize,
        path: Seq<char>,
        program: Seq<char>,
        session: Option<ShellSession>,
    ) -> DeskModel {
        DeskModel {
            apps: opened(
                self.apps,
                AppModel::with_program(
                    program_title(program, self.next_id),
                    terminal_place(self.size.0, self.size.1),
                    path,
                    session,
                ).on(desktop),
            ),
            next_id: next_id(self.next_id),
            ..self
        }
    }

    /// The active terminal split.
    pub open spec fn terminal_split(
        self,
        direction: SplitDirection,
        session: Option<ShellSession>,
    ) -> DeskModel {
        match split_target(self.apps, self.mode, self.desktop, direction) {
            Some(i) => DeskModel {
                apps: split(self.apps, i as int, self.desktop, direction, self.next_id, session),
                next_id: next_id(self.next_id),
                ..self
            }.focused(self.apps.len() as usize),
            None => self,
        }
    }

    /// What a shortcut does.
    pub open spec fn acted(self, action: Action) -> (DeskModel, OutcomeModel) {
        match action {
            Action::NewTerminal => (self, OutcomeModel::Ask(AskModel::Terminal)),
            Action::CloseWindow => {
                let s = match active(self.apps, self.mode, self.desktop) {
                    Some(i) => self.ended(i),
                    None => self,
                };
                match closes(s.apps, s.mode, s.desktop) {
                    Some(i) => (
                        DeskModel { mode: ModeModel::Normal, ..s.dropped(i) },
                        OutcomeModel::Done(true),
                    ),
                    None => (s, OutcomeModel::Done(false)),
                }
            },
            Action::ToggleMaximize => (
                DeskModel {
                    apps: maximize_toggled(
                        self.apps,
                        self.mode,
                        self.desktop,
                        self.size.0,
                        self.size.1,
                    ),
                    ..self
                },
                OutcomeModel::Done(active(self.apps, self.mode, self.desktop) is Some),
            ),
            Action::StartMenu => (self, OutcomeModel::Ask(AskModel::Menu)),
            Action::Help => (self.help_toggled(), OutcomeModel::Done(true)),
            Action::SplitVertical => (self, self.split_asked(SplitDirection::Vertical)),
            Action::SplitHorizontal => (self, self.split_asked(SplitDirection::Horizontal)),
            Action::Minimize => match minimizes(self.apps, self.mode, self.desktop) {
                Some(i) => {
                    let m = self.apps[i as int];
                    (
                        DeskModel {
                            mode: ModeModel::Normal,
                            ..self.shown(i, m.display.unmaximized().minimized()).tabs_fitted()
                        },
                        OutcomeModel::Done(true),
                    )
                },
                None => (self, OutcomeModel::Done(false)),
            },
            Action::FocusNext => self.focus_moved(false),
            Action::FocusPrev => self.focus_moved(true),
            Action::ResizeActive => match resizes(self.apps, self.mode, self.desktop) {
                Some(i) => {
                    let w = self.apps[i as int].window()->0;
                    (
                        DeskModel {
                            mode: ModeModel::Resizing { app_idx: i, edit: None },
                            pointer: pointer_at(
                                w.position_x + if w.width > 0 {
                                    w.width - 1
                                } else {
                                    0
                                },
                                w.position_y + if w.height > 0 {
                                    w.height - 1
                                } else {
                                    0
                                },
                                self.size.0,
                                self.size.1,
                            ),
                            ..self
                        },
                        OutcomeModel::Done(true),
                    )
                },
                None => (self, OutcomeModel::Done(false)),
            },
            Action::ToggleMouse => (
                DeskModel { mouse_enabled: !self.mouse_enabled, ..self },
                OutcomeModel::Done(true),
            ),
            Action::Quit => (DeskModel { quit: true, ..self.saved() }, OutcomeModel::Done(false)),
        }
    }

    /// A shell is asked for where the active window can be split.
    pub open spec fn split_asked(self, direction: SplitDirection) -> OutcomeModel {
        match split_target(self.apps, self.mode, self.desktop, direction) {
            Some(i) => OutcomeModel::Ask(
                AskModel::Split { direction, path: self.apps[i as int].terminal->0.path },
            ),
            None => OutcomeModel::Done(false),
        }
    }

    /// The next window to the front, or the one before.
    pub open spec fn focus_moved(self, backward: bool) -> (DeskModel, OutcomeModel) {
        match focus_target(self.apps, self.mode, self.desktop, backward) {
            Some(i) => (
                DeskModel { mode: ModeModel::Normal, ..self.raised(i) },
                OutcomeModel::Done(true),
            ),
            None => (self, OutcomeModel::Done(false)),
        }
    }

    /// The active window snapped to a part of the screen.
    pub open spec fn window_snapped(self, key: Key, held: HeldArrowKeys) -> (DeskModel, bool) {
        match (region_for(key, held), snaps(self.apps, self.mode, self.desktop)) {
            (Some(region), Some(i)) => {
                let d = self.apps[i as int].display;
                (
                    DeskModel {
                        mode: ModeModel::Normal,
                        ..self.shown(i, snapped(d, self.size.0, self.size.1, region))
                    },
                    true,
                )
            },
            _ => (self, false),
        }
    }

    /// The entry of menu `i` that the pointer is on.
    pub open spec fn entry_pointed(self, i: usize) -> Option<usize> {
        if i < self.apps.len() {
            match (self.apps[i as int].window(), self.apps[i as int].menu) {
                (Some(w), Some(m)) => entry_at(w, m, self.pointer),
                _ => None,
            }
        } else {
            None
        }
    }

    /// Another entry of menu `i` selected, within the rows on the screen.
    pub open spec fn entry_selected(self, i: usize, selected: usize) -> DeskModel {
        let a = self.apps[i as int];
        if i < self.apps.len() && a.menu is Some {
            let rows = match a.window() {
                Some(w) => if w.height >= 3 {
                    (w.height - 2) as usize
                } else {
                    1
                },
                None => 1,
            };
            let m = MenuModel { selected, ..a.menu->0 }.selection_shown(rows);
            DeskModel { apps: self.apps.update(i as int, AppModel { menu: Some(m), ..a }), ..self }
        } else {
            self
        }
    }

    /// The entry of menu `i` that is selected.
    pub open spec fn entry_of(self, i: usize) -> Option<MenuItemModel> {
        if i < self.apps.len() && self.apps[i as int].menu is Some {
            let m = self.apps[i as int].menu->0;
            if m.selected < m.items.len() {
                Some(m.items[m.selected as int])
            } else {
                None
            }
        } else {
            None
        }
    }

    /// How far the help `i` scrolls: its rows on the screen, and the limit.
    pub open spec fn help_room(self, i: usize) -> (usize, usize) {
        let a = self.apps[i as int];
        let (w, h): (usize, usize) = match a.window() {
            Some(win) => (win.inner_w() as usize, win.inner_h() as usize),
            None => (80, 20),
        };
        (
            h,
            match a.help {
                Some(m) => help_limit(m.lines, max_len(w, 1), max_len(h, 1)),
                None => 0,
            },
        )
    }

    /// The help `i` scrolled to another row.
    pub open spec fn help_scrolled(self, i: usize, scroll: usize) -> DeskModel {
        let a = self.apps[i as int];
        match a.help {
            Some(m) => DeskModel {
                apps: self.apps.update(
                    i as int,
                    AppModel { help: Some(HelpModel { scroll, ..m }), ..a },
                ),
                ..self
            },
            None => self,
        }
    }

    /// A key for the help `i`, where it is one.
    pub open spec fn help_key(self, i: usize, key: Key) -> Option<DeskModel> {
        let (rows, limit) = self.help_room(i);
        let at = self.apps[i as int].help->0.scroll;
        let back = |n: usize| self.help_scrolled(i, help_row(at, true, n, limit, false));
        let on = |n: usize| self.help_scrolled(i, help_row(at, false, n, limit, true));
        match key {
            Key::Escape | Key::End => Some(self.dropped(i)),
            Key::Up => Some(back(1)),
            Key::PageUp => Some(back(rows)),
            Key::Down => Some(on(1)),
            Key::PageDown => Some(on(rows)),
            _ => None,
        }
    }

    /// A key for menu `i`, where it is one.
    pub open spec fn menu_key(self, i: usize, key: Key) -> Option<(DeskModel, OutcomeModel)> {
        match key {
            Key::Escape if self.sel is Some => Some(
                (self.deselected().released(), OutcomeModel::Done(true)),
            ),
            Key::Up | Key::Down | Key::Left | Key::Right => {
                let p = self.pointer;
                let s = DeskModel {
                    pointer: match key {
                        Key::Up => p.up(),
                        Key::Down => p.down(self.size.1),
                        Key::Left => p.left(),
                        _ => p.right(self.size.0),
                    },
                    ..self
                };
                Some(
                    (
                        match s.entry_pointed(i) {
                            Some(e) => s.entry_selected(i, e),
                            None => s,
                        },
                        OutcomeModel::Done(true),
                    ),
                )
            },
            Key::Enter | Key::Char(' ') => match self.entry_pointed(i) {
                None => None,
                Some(_) => match self.entry_of(i) {
                    Some(item) => Some(
                        (self.dropped(i), OutcomeModel::Ask(AskModel::Launch { item })),
                    ),
                    None => Some((self, OutcomeModel::Done(false))),
                },
            },
            Key::Escape | Key::CtrlD => Some((self.dropped(i), OutcomeModel::Done(true))),
            _ => None,
        }
    }

    /// The help closed by a press that is not on it.
    pub open spec fn help_dismissed(self) -> DeskModel {
        match self.help_at() {
            Some(i) => if window_of(self.apps, i) matches Some(w) && covers(
                w,
                self.pointer.x,
                self.pointer.y,
            ) {
                self
            } else {
                self.dropped(i)
            },
            None => self,
        }
    }

    /// What a menu entry starts, in a window of its own.
    pub open spec fn item_started(
        self,
        item: MenuItemModel,
        home: Option<Seq<char>>,
        shell: Seq<char>,
        lines: Seq<Seq<char>>,
        session: Option<ShellSession>,
    ) -> (DeskModel, OutcomeModel) {
        let cwd = item_cwd(item, self.path, home);
        let desktop = item_desktop(item, self.desktop);
        let line = with_args(trim(item.command), item.args);
        match item_program(item, shell) {
            Some(program) => (
                self.program_opened(desktop, cwd, program, session),
                OutcomeModel::Done(true),
            ),
            None => {
                let i = self.apps.len() as usize;
                let s = self.terminal_opened(
                    desktop,
                    cwd,
                    shared_entries(lines, self.path),
                    session,
                );
                if item.kind == MenuKind::Command && line.len() > 0 {
                    s.line_typed(i, line).line_entered(i)
                } else {
                    (s, OutcomeModel::Done(true))
                }
            },
        }
    }

    /// A line typed into terminal `i`.
    pub open spec fn line_typed(self, i: usize, line: Seq<char>) -> DeskModel {
        self.with_terminal(
            i,
            TermStateModel {
                cmd_input: line,
                input_cursor: line.len() as usize,
                ..terminal_of(self.apps, i)->0
            },
        )
    }

    /// The window of a menu entry named and focused, on its desktop.
    pub open spec fn item_shown(self, i: usize, label: Seq<char>, desktop: usize) -> DeskModel {
        let a = self.apps[i as int];
        let s = DeskModel {
            apps: self.apps.update(i as int, AppModel { title: label, ..a }),
            ..self
        };
        let s = if desktop != s.desktop {
            DeskModel { desktop, ..s }.tabs_fitted()
        } else {
            s
        };
        s.focused(i)
    }

    /// A menu entry launched. `shell` is the default shell.
    pub open spec fn launched(
        self,
        item: MenuItemModel,
        home: Option<Seq<char>>,
        shell: Seq<char>,
        lines: Seq<Seq<char>>,
        session: Option<ShellSession>,
    ) -> (DeskModel, OutcomeModel) {
        let (s, out) = self.item_started(item, home, shell, lines, session);
        (
            s.item_shown(
                self.apps.len() as usize,
                item.label,
                item_desktop(item, self.desktop),
            ),
            match out {
                OutcomeModel::Ask(a) => OutcomeModel::Ask(a),
                OutcomeModel::Done(_) => OutcomeModel::Done(true),
            },
        )
    }
}

/// The desktop of a menu entry.
pub open spec fn item_desktop(item: MenuItemModel, desktop: usize) -> usize {
    match item.desktop {
        Some(d) => d,
        None => desktop,
    }
}

fn is_on_input(app: &Application, p: &Pointer) -> (r: bool)
    ensures
        r == on_input(app@, *p),
{
    match (&app.terminal, app.window()) {
        (Some(_), Some(w)) => {
            let below: u32 = if w.content_w as usize > w.visible_w() {
                3
            } else {
                2
            };
            w.height >= 5 && p.y as u32 == w.position_y as u32 + w.height as u32 - below && p.x
                > w.position_x && (p.x as u32) + 1 < w.position_x as u32 + w.width as u32
        },
        _ => false,
    }
}

/// Takes a click on one of the scrollbars of an application.
fn click_scrollbars(app: &mut Application, p: &Pointer) -> (taken: bool)
    requires
        old(app).wf(),
    ensures
        (final(app)@, taken) == scroll_clicked(old(app)@, *p),
        final(app).wf(),
{
    let mut taken = false;
    match app.window_mut() {
        Some(w) => {
            if w.is_sound() && w.scroll_x < 0xffff && w.scroll_y < 0xffff {
                taken = w.interact(p.x, p.y);
            }
        },
        None => {},
    }
    proof {
        let a = old(app)@;
        if a.window() is Some {
            assert(a.with_window(a.window()->0) =~= a);
        }
    }
    if taken {
        return true;
    }
    if interact_terminal_horizontal_scroll(app, p.x, p.y) {
        return true;
    }
    interact_terminal_vertical_scroll(app, p.x, p.y)
}

impl Desktop {
    /// Ends the session of an application.
    fn end_session(&mut self, i: usize)
        requires
            old(self).wf(),
        ensures
            final(self)@ == old(self)@.ended(i),
            final(self).wf(),
    {
        let mut ended: Option<ShellSession> = None;
        match terminal_mut(&mut self.applications, i) {
            Some(t) => {
                let ghost m = t@;
                ended = t.shell_session.take();
                assert(t@ =~= (TermStateModel { session: None, ..m }));
            },
            None => {},
        }
        proof {
            match terminal_of(old(self)@.apps, i) {
                Some(t) => {
                    if t.session is None {
                        assert(with_terminal(
                            old(self)@.apps,
                            i as int,
                            TermStateModel { session: None, ..t },
                        ) =~= old(self)@.apps);
                    }
                },
                None => {},
            }
        }
        match ended {
            Some(s) => {
                let ghost t = terminal_of(old(self)@.apps, i)->0;
                assert(self@ =~= old(self)@.with_terminal(
                    i,
                    TermStateModel { session: None, ..t },
                ));
                self.emit(Effect::Kill { session: s.id });
            },
            None => {
                assert(self@ =~= old(self)@);
            },
        }
    }

    /// Raises an application.
    pub(crate) fn raise(&mut self, i: usize) -> (r: usize)
        requires
            old(self).wf(),
            i < old(self)@.apps.len(),
        ensures
            final(self)@ == old(self)@.raised(i),
            r == final(self)@.last_idx(),
            final(self)@.apps.len() == old(self)@.apps.len(),
            final(self).wf(),
    {
        let r = bring_window_to_front(&mut self.applications, i);
        assert(self@ =~= old(self)@.raised(i));
        r
    }

    fn click_rail(&mut self)
        requires
            old(self).wf(),
        ensures
            final(self)@ == old(self)@.rail_clicked(),
            final(self).wf(),
    {
        self.last_space_time = None;
        let ghost s = self@;
        assert(s =~= (DeskModel { last_space: None, ..old(self)@ }));
        let bottom: u16 = self.last_size.1.saturating_sub(4);
        let mid: u16 = ((1 + bottom as u32) / 2) as u16;
        if self.pointer.y <= mid {
            self.tab_scroll = self.tab_scroll.saturating_sub(1);
            assert(self@ =~= old(self)@.rail_clicked());
        } else {
            self.scroll_tabs_on();
        }
    }

    pub(crate) fn scroll_tabs_on(&mut self)
        requires
            old(self).wf(),
        ensures
            final(self)@ == old(self)@.tabs_scrolled_on(),
            final(self).wf(),
    {
        let limit: usize = max_tab_scroll(
            &self.applications,
            self.current_desktop,
            self.last_size.1,
        );
        self.tab_scroll = min_len(self.tab_scroll.saturating_add(1), limit);
        assert(self@ =~= old(self)@.tabs_scrolled_on());
    }

    fn click_tab(&mut self) -> (changed: bool)
        requires
            old(self).wf(),
        ensures
            (final(self)@, changed) == old(self)@.tab_clicked(),
            final(self).wf(),
    {
        self.last_space_time = None;
        assert(self@ =~= (DeskModel { last_space: None, ..old(self)@ }));
        let ghost s = self@;
        let list = tab_layout(
            &self.applications,
            self.current_desktop,
            self.last_size.1,
            self.tab_scroll,
        );
        match find_tab(&list, &self.pointer) {
            None => false,
            Some(t) => {
                proof {
                    let k = choose|k: int| 0 <= k < list@.len() && list@[k] == t;
                    assert(list@[k].0 < self.applications@.len());
                }
                let i: usize = t.0;
                assert(s.apps[i as int] == self.applications@[i as int]@);
                let display = self.restored_display(i);
                display_app(&mut self.applications, i, display);
                assert(self@ =~= s.shown(i, s.apps[i as int].display.restored()));
                let r = self.raise(i);
                self.fit_tabs();
                assert(self@.apps[r as int] == self.applications@[r as int]@);
                if self.applications[r].terminal.is_some() {
                    self.focus(r);
                }
                true
            },
        }
    }

    fn restored_display(&self, i: usize) -> (d: crate::app::DisplayMode)
        requires
            i < self@.apps.len(),
        ensures
            d == self@.apps[i as int].display.restored(),
    {
        assert(self@.apps[i as int] == self.applications@[i as int]@);
        match self.applications[i].display {
            crate::app::DisplayMode::Minimized(w) => crate::app::DisplayMode::Windowed(w),
            other => other,
        }
    }

    fn click_frame(&mut self, top: usize, now: u64) -> (changed: bool)
        requires
            old(self).wf(),
            window_of(old(self)@.apps, top) is Some,
        ensures
            (final(self)@, changed) == old(self)@.frame_clicked(top, now),
            final(self).wf(),
    {
        let ghost d = self@;
        let p = self.pointer;
        let w = match find_window(&self.applications, top) {
            Some(w) => w,
            None => {
                return false;
            },
        };
        assert(d.apps[top as int] == self.applications@[top as int]@);
        let last_x: u32 = w.position_x as u32 + w.width as u32;
        let last_y: u32 = w.position_y as u32 + w.height as u32;
        let left = p.x == w.position_x;
        let right = p.x as u32 + 1 == last_x;
        let upper = p.y == w.position_y;
        let lower = p.y as u32 + 1 == last_y;
        let full = self.applications[top].is_maximized();
        if left && upper && w.minimizable {
            let ghost before = self.applications@;
            self.applications[top].minimize();
            assert(self@ =~= d.shown(top, d.apps[top as int].display.minimized()));
            proof {
                lemma_shown(d, top, d.apps[top as int].display.minimized());
            }
            true
        } else if right && upper && w.closable {
            self.end_session(top);
            assert(self@.apps.len() == d.apps.len());
            self.drop_app(top);
            true
        } else if right && lower && !full && w.resizable {
            self.mode = Mode::Resizing { app_idx: top, edit: None };
            assert(self@ =~= (DeskModel {
                mode: ModeModel::Resizing { app_idx: top, edit: None },
                ..d
            }));
            true
        } else if upper && p.x > w.position_x && (p.x as u32) + 1 < last_x && w.draggable {
            let twice = is_within(self.last_space_time, now, DOUBLE_MILLIS);
            self.last_space_time = if twice {
                None
            } else {
                Some(now)
            };
            let ghost s = self@;
            assert(s =~= (DeskModel { last_space: self.last_space_time, ..d }));
            if twice {
                if full {
                    self.applications[top].restore_maximize();
                    assert(self@ =~= s.shown(top, d.apps[top as int].display.unmaximized()));
                } else {
                    self.applications[top].maximize(self.last_size.0, self.last_size.1);
                    assert(self@ =~= s.shown(
                        top,
                        d.apps[top as int].display.maximized(s.size.0, s.size.1),
                    ));
                }
                proof {
                    lemma_shown(s, top, self@.apps[top as int].display);
                }
                true
            } else if !full {
                let r = self.raise(top);
                let ghost t = self@;
                self.mode = Mode::Moving { app_idx: r, offset_x: p.x - w.position_x };
                assert(self@ =~= (DeskModel {
                    mode: ModeModel::Moving {
                        app_idx: t.last_idx(),
                        offset_x: (p.x - w.position_x) as u16,
                    },
                    ..t
                }));
                true
            } else {
                false
            }
        } else {
            self.last_space_time = None;
            assert(self@ =~= (DeskModel { last_space: None, ..d }));
            if top != self.applications.len() - 1 {
                self.raise(top);
                true
            } else {
                false
            }
        }
    }

    fn click_window(&mut self, top: usize, now: u64) -> (changed: bool)
        requires
            old(self).wf(),
            window_of(old(self)@.apps, top) is Some,
        ensures
            (final(self)@, changed) == old(self)@.window_clicked(top, now),
            final(self).wf(),
    {
        let ghost d = self@;
        assert(d.apps[top as int] == self.applications@[top as int]@);
        let p = self.pointer;
        let taken = click_scrollbars(&mut self.applications[top], &p);
        let ghost a = scroll_clicked(d.apps[top as int], p).0;
        assert(self@ =~= (DeskModel { apps: d.apps.update(top as int, a), ..d }));
        proof {
            assert forall|k: int| 0 <= k < self@.apps.len() implies #[trigger] self@.apps[k].wf() by {
                if k != top {
                    assert(self@.apps[k] == d.apps[k]);
                }
            }
        }
        if taken {
            return true;
        }
        assert(self@.apps[top as int] == self.applications@[top as int]@);
        if is_on_input(&self.applications[top], &p) {
            let interactive = match &self.applications[top].terminal {
                Some(t) => t.interactive,
                None => false,
            };
            let r = self.raise(top);
            if !interactive {
                self.point_at(r);
            }
            let ghost t = self@;
            self.mode = Mode::TerminalFocus { app_idx: r };
            assert(self@ =~= (DeskModel { mode: ModeModel::TerminalFocus { app_idx: r }, ..t }));
            return true;
        }
        self.click_frame(top, now)
    }

    fn press_window(&mut self, top: usize, now: u64) -> (changed: bool)
        requires
            old(self).wf(),
            window_of(old(self)@.apps, top) is Some,
        ensures
            (final(self)@, changed) == old(self)@.window_pressed(top, now),
            final(self).wf(),
    {
        let mut skip = false;
        match find_first(&self.applications, self.current_desktop, false) {
            Some(m) => {
                if m != top {
                    self.drop_app(m);
                    skip = true;
                }
            },
            None => {},
        }
        match self.help_idx() {
            Some(i) => {
                let hit = topmost_window_at(
                    &self.applications,
                    self.current_desktop,
                    self.pointer.x,
                    self.pointer.y,
                );
                let on_it = match hit {
                    Some(k) => k == i,
                    None => false,
                };
                if !on_it {
                    self.drop_app(i);
                    skip = true;
                }
            },
            None => {},
        }
        if skip {
            return true;
        }
        self.click_window(top, now)
    }

    /// Takes a click at the pointer.
    pub fn space_action(&mut self, now: u64) -> (r: Outcome)
        requires
            old(self).wf(),
        ensures
            (final(self)@, r@) == old(self)@.clicked(now),
            final(self).wf(),
    {
        let p = self.pointer;
        let (w, h) = self.last_size;
        match desktop_at(p.x, p.y, w, h) {
            Some(d) => {
                self.switch_desktop(d);
                return Outcome::Done(true);
            },
            None => {},
        }
        if p.y == h - 2 && p.x >= CMD_INPUT_X - TERMINAL_PREFIX_LEN {
            self.mode = Mode::Typing;
            self.panel_scroll = 0;
            assert(self@ =~= old(self)@.typing());
            Outcome::Done(true)
        } else if p.y == h - 2 && p.x >= STATUS_START_X && p.x < STATUS_START_X
            + STATUS_START_LEN {
            Outcome::Ask(Ask::Menu)
        } else if p.x == w.saturating_sub(1) {
            self.click_rail();
            Outcome::Done(true)
        } else if p.x >= w.saturating_sub(3) {
            let b = self.click_tab();
            Outcome::Done(b)
        } else {
            match topmost_window_at(&self.applications, self.current_desktop, p.x, p.y) {
                Some(top) => {
                    assert(self@.apps[top as int] == self.applications@[top as int]@);
                    let b = self.press_window(top, now);
                    Outcome::Done(b)
                },
                None => Outcome::Done(false),
            }
        }
    }

    /// Puts the pointer on the first entry of the start menu, where it is open.
    pub fn park_pointer_on_start_menu(&mut self)
        requires
            old(self).wf(),
        ensures
            final(self)@ == old(self)@.parked(),
            final(self).wf(),
    {
        match self.start_menu_idx() {
            Some(i) => match find_window(&self.applications, i) {
                Some(w) => {
                    self.pointer = Pointer::new(
                        w.position_x.saturating_add(1),
                        w.position_y.saturating_add(1),
                    );
                    self.pointer.clamp_to_bounds(self.last_size.0, self.last_size.1);
                    assert(self@ =~= old(self)@.parked());
                },
                None => {},
            },
            None => {},
        }
    }

    /// Opens the start menu with its entries, or closes it.
    pub fn open_start_menu(&mut self, items: Vec<MenuItem>) -> (changed: bool)
        requires
            old(self).wf(),
        ensures
            final(self)@ == old(self)@.menu_toggled(menu_items(items@)),
            changed,
            final(self).wf(),
    {
        let ghost list = menu_items(items@);
        toggle_start_menu(
            &mut self.applications,
            self.current_desktop,
            self.last_size.1,
            &mut self.tab_scroll,
            items,
        );
        assert(self@ =~= (DeskModel {
            apps: menu_toggled(
                old(self)@.apps,
                old(self)@.desktop,
                old(self)@.size.1,
                list,
            ),
            ..old(self)@
        }.tabs_fitted()));
        self.park_pointer_on_start_menu();
        true
    }

    /// Opens a terminal with a shell and the lines of the shared history.
    pub fn open_terminal(&mut self, lines: &[String], session: Option<ShellSession>) -> (changed: bool)
        requires
            old(self).wf(),
        ensures
            final(self)@ == old(self)@.terminal_opened(
                old(self)@.desktop,
                old(self)@.path,
                shared_entries(texts(lines@), old(self)@.path),
                session,
            ).focused(old(self)@.apps.len() as usize),
            changed,
            final(self).wf(),
    {
        let commands = self.shared_history_commands(lines);
        let path = self.current_path.clone();
        let i = self.spawn_terminal(self.current_desktop, path.as_str(), commands, session);
        self.focus(i);
        true
    }

    pub(crate) fn spawn_terminal(
        &mut self,
        desktop: usize,
        path: &str,
        commands: Vec<CommandEntry>,
        session: Option<ShellSession>,
    ) -> (i: usize)
        requires
            old(self).wf(),
        ensures
            final(self)@ == old(self)@.terminal_opened(
                desktop,
                path@,
                entries(commands@),
                session,
            ),
            i == old(self)@.apps.len(),
            final(self)@.apps.len() == i + 1,
            final(self).wf(),
    {
        let ghost list = entries(commands@);
        let i = spawn_terminal_window(
            &mut self.applications,
            &mut self.next_terminal_id,
            desktop,
            self.last_size.0,
            self.last_size.1,
            path,
            commands,
            session,
        );
        assert(self@ =~= old(self)@.terminal_opened(desktop, path@, list, session));
        i
    }

    pub(crate) fn spawn_program(
        &mut self,
        desktop: usize,
        path: &str,
        program: &str,
        session: Option<ShellSession>,
    ) -> (i: usize)
        requires
            old(self).wf(),
        ensures
            final(self)@ == old(self)@.program_opened(desktop, path@, program@, session),
            i == old(self)@.apps.len(),
            final(self)@.apps.len() == i + 1,
            final(self).wf(),
    {
        let i = spawn_interactive_terminal(
            &mut self.applications,
            &mut self.next_terminal_id,
            desktop,
            self.last_size.0,
            self.last_size.1,
            path,
            program,
            session,
        );
        assert(self@ =~= old(self)@.program_opened(desktop, path@, program@, session));
        i
    }

    /// Splits the active terminal. `session` is the shell of the new half.
    pub fn split_terminal(&mut self, direction: SplitDirection, session: Option<ShellSession>) -> (
    changed: bool)
        requires
            old(self).wf(),
        ensures
            final(self)@ == old(self)@.terminal_split(direction, session),
            changed == (split_target(
                old(self)@.apps,
                old(self)@.mode,
                old(self)@.desktop,
                direction,
            ) is Some),
            final(self).wf(),
    {
        match split_active_terminal_window(
            &mut self.applications,
            &self.mode,
            &mut self.next_terminal_id,
            self.current_desktop,
            direction,
            session,
        ) {
            Some(i) => {
                let ghost d = old(self)@;
                assert(self@ =~= (DeskModel {
                    apps: self@.apps,
                    next_id: next_id(d.next_id),
                    ..d
                }));
                self.focus(i);
                true
            },
            None => {
                assert(self@ =~= old(self)@);
                false
            },
        }
    }

    fn ask_split(&self, direction: SplitDirection) -> (r: Outcome)
        ensures
            r@ == self@.split_asked(direction),
    {
        match split_path(&self.applications, &self.mode, self.current_desktop, direction) {
            Some(path) => Outcome::Ask(Ask::Split { direction, path }),
            None => Outcome::Done(false),
        }
    }

    fn close_active(&mut self) -> (changed: bool)
        requires
            old(self).wf(),
        ensures
            (final(self)@, OutcomeModel::Done(changed)) == old(self)@.acted(Action::CloseWindow),
            final(self).wf(),
    {
        match active_window_idx(&self.applications, &self.mode, self.current_desktop) {
            Some(i) => self.end_session(i),
            None => {},
        }
        let ghost s = self@;
        let closed = close_active_window(
            &mut self.applications,
            &mut self.mode,
            self.current_desktop,
            self.last_size.1,
            &mut self.tab_scroll,
        );
        proof {
            match closes(s.apps, s.mode, s.desktop) {
                Some(i) => {
                    assert(self@ =~= (DeskModel { mode: ModeModel::Normal, ..s.dropped(i) }));
                },
                None => {
                    assert(self@ =~= s);
                },
            }
        }
        closed
    }
}

proof fn lemma_shown(d: DeskModel, i: usize, display: crate::app::DisplayMode)
    requires
        d.wf(),
        i < d.apps.len(),
    ensures
        d.shown(i, display).wf(),
{
    let a = d.shown(i, display).apps;
    assert forall|k: int| 0 <= k < a.len() implies #[trigger] a[k].wf() by {
        if k == i {
            assert(d.apps[k].wf());
        } else {
            assert(a[k] == d.apps[k]);
        }
    }
}

impl Desktop {
    /// Does what a shortcut stands for.
    pub fn run_action(&mut self, action: Action) -> (r: Outcome)
        requires
            old(self).wf(),
        ensures
            (final(self)@, r@) == old(self)@.acted(action),
            final(self).wf(),
    {
        let ghost d = self@;
        match action {
            Action::NewTerminal => Outcome::Ask(Ask::Terminal),
            Action::CloseWindow => {
                let b = self.close_active();
                Outcome::Done(b)
            },
            Action::ToggleMaximize => {
                let b = toggle_active_maximize(
                    &mut self.applications,
                    &self.mode,
                    self.current_desktop,
                    self.last_size.0,
                    self.last_size.1,
                );
                assert(self@ =~= d.acted(action).0);
                Outcome::Done(b)
            },
            Action::StartMenu => Outcome::Ask(Ask::Menu),
            Action::Help => {
                let b = toggle_help_window(
                    &mut self.applications,
                    self.current_desktop,
                    self.last_size.0,
                    self.last_size.1,
                    &mut self.tab_scroll,
                );
                assert(self@ =~= d.help_toggled());
                Outcome::Done(b)
            },
            Action::SplitVertical => self.ask_split(SplitDirection::Vertical),
            Action::SplitHorizontal => self.ask_split(SplitDirection::Horizontal),
            Action::Minimize => {
                let b = minimize_active_window(
                    &mut self.applications,
                    &mut self.mode,
                    self.current_desktop,
                    self.last_size.1,
                    &mut self.tab_scroll,
                );
                assert(self@ =~= d.acted(action).0);
                Outcome::Done(b)
            },
            Action::FocusNext => self.move_focus(false),
            Action::FocusPrev => self.move_focus(true),
            Action::ResizeActive => {
                let b = enter_active_resize_mode(
                    &self.applications,
                    &mut self.mode,
                    self.current_desktop,
                    &mut self.pointer,
                    self.last_size.0,
                    self.last_size.1,
                );
                assert(self@ =~= d.acted(action).0);
                Outcome::Done(b)
            },
            Action::ToggleMouse => {
                self.mouse_enabled = !self.mouse_enabled;
                assert(self@ =~= d.acted(action).0);
                Outcome::Done(true)
            },
            Action::Quit => {
                self.save_session();
                self.quit = true;
                assert(self@ =~= d.acted(action).0);
                Outcome::Done(false)
            },
        }
    }

    fn move_focus(&mut self, backward: bool) -> (r: Outcome)
        requires
            old(self).wf(),
        ensures
            (final(self)@, r@) == old(self)@.focus_moved(backward),
            final(self).wf(),
    {
        let b = focus_relative_window(
            &mut self.applications,
            &mut self.mode,
            self.current_desktop,
            backward,
        );
        assert(self@ =~= old(self)@.focus_moved(backward).0);
        Outcome::Done(b)
    }

    /// Snaps the active window to the part of the screen that an arrow key stands
    /// for, with the arrow keys that are held.
    pub fn snap_window(&mut self, key: Key, held: HeldArrowKeys) -> (changed: bool)
        requires
            old(self).wf(),
        ensures
            (final(self)@, changed) == old(self)@.window_snapped(key, held),
            final(self).wf(),
    {
        match resolve_snap_region(&key, held) {
            Some(region) => {
                let b = snap_active_window(
                    &mut self.applications,
                    &mut self.mode,
                    self.current_desktop,
                    self.last_size.0,
                    self.last_size.1,
                    region,
                );
                assert(self@ =~= old(self)@.window_snapped(key, held).0);
                b
            },
            None => false,
        }
    }

    /// The entry of a menu that the pointer is on.
    pub fn menu_item_under_pointer(&self, menu_idx: usize) -> (r: Option<usize>)
        ensures
            r == self@.entry_pointed(menu_idx),
    {
        if menu_idx >= self.applications.len() {
            return None;
        }
        assert(self@.apps[menu_idx as int] == self.applications@[menu_idx as int]@);
        let app = &self.applications[menu_idx];
        match (app.window(), &app.menu) {
            (Some(w), Some(m)) => {
                if !is_in_body(w, &self.pointer) {
                    return None;
                }
                let row: usize = (self.pointer.y - w.position_y - 1) as usize;
                let n: usize = m.items.len();
                if m.scroll < n && row < n - m.scroll {
                    Some(m.scroll + row)
                } else {
                    None
                }
            },
            _ => None,
        }
    }

    /// Selects an entry of a menu, which stays within the rows on the screen.
    pub fn select_menu_item(&mut self, menu_idx: usize, selected: usize)
        requires
            old(self).wf(),
        ensures
            final(self)@ == old(self)@.entry_selected(menu_idx, selected),
            final(self).wf(),
    {
        let rows: usize = match find_window(&self.applications, menu_idx) {
            Some(w) => max_len(w.visible_h(), 1),
            None => 1,
        };
        match menu_mut(&mut self.applications, menu_idx) {
            Some(m) => {
                let ghost before = m@;
                m.selected = selected;
                assert(m@ =~= (MenuModel { selected, ..before }));
                m.keep_selected_visible(rows);
            },
            None => {},
        }
        assert(self@ =~= old(self)@.entry_selected(menu_idx, selected));
    }

    fn selected_item(&self, menu_idx: usize) -> (r: Option<MenuItem>)
        ensures
            match r {
                Some(i) => self@.entry_of(menu_idx) == Some(i@),
                None => self@.entry_of(menu_idx) is None,
            },
    {
        if menu_idx >= self.applications.len() {
            return None;
        }
        assert(self@.apps[menu_idx as int] == self.applications@[menu_idx as int]@);
        match &self.applications[menu_idx].menu {
            Some(m) => {
                if m.selected < m.items.len() {
                    Some(m.items[m.selected].clone())
                } else {
                    None
                }
            },
            None => None,
        }
    }

    /// Closes the start menu.
    pub fn close_start_menu(&mut self, menu_idx: usize)
        requires
            old(self).wf(),
            menu_idx < old(self)@.apps.len(),
        ensures
            final(self)@ == old(self)@.dropped(menu_idx),
            final(self).wf(),
    {
        self.drop_app(menu_idx);
    }

    /// Closes the help.
    pub fn close_help(&mut self, help_idx: usize)
        requires
            old(self).wf(),
            help_idx < old(self)@.apps.len(),
        ensures
            final(self)@ == old(self)@.dropped(help_idx),
            final(self).wf(),
    {
        self.drop_app(help_idx);
    }

    /// Closes the help where the pointer is not on it.
    pub fn dismiss_help_on_outside_press(&mut self)
        requires
            old(self).wf(),
        ensures
            final(self)@ == old(self)@.help_dismissed(),
            final(self).wf(),
    {
        match self.help_idx() {
            Some(i) => {
                let on_it = match find_window(&self.applications, i) {
                    Some(w) => covers_cell(&w, self.pointer.x, self.pointer.y),
                    None => false,
                };
                if !on_it {
                    self.close_help(i);
                }
            },
            None => {},
        }
    }

    /// How far a help scrolls: its rows on the screen, and the limit.
    pub(crate) fn room_of_help(&self, help_idx: usize) -> (r: (usize, usize))
        requires
            help_idx < self@.apps.len(),
        ensures
            r == self@.help_room(help_idx),
    {
        assert(self@.apps[help_idx as int] == self.applications@[help_idx as int]@);
        let (w, h): (usize, usize) = match find_window(&self.applications, help_idx) {
            Some(win) => (win.visible_w(), win.visible_h()),
            None => (80, 20),
        };
        let limit: usize = match &self.applications[help_idx].help {
            Some(m) => help_max_scroll(&m.lines, max_len(w, 1), max_len(h, 1)),
            None => 0,
        };
        (h, limit)
    }

    pub(crate) fn scroll_help(&mut self, help_idx: usize, back: bool, n: usize, limit: usize, cap: bool)
        requires
            old(self).wf(),
            help_idx < old(self)@.apps.len(),
        ensures
            final(self)@ == old(self)@.help_scrolled(
                help_idx,
                help_row(old(self)@.apps[help_idx as int].help->0.scroll, back, n, limit, cap),
            ),
            final(self).wf(),
    {
        match help_mut(&mut self.applications, help_idx) {
            Some(m) => {
                let ghost before = m@;
                let to: usize = if back {
                    m.scroll.saturating_sub(n)
                } else {
                    m.scroll.saturating_add(n)
                };
                m.scroll = if cap {
                    min_len(to, limit)
                } else {
                    to
                };
                assert(m@ =~= (HelpModel {
                    scroll: help_row(before.scroll, back, n, limit, cap),
                    ..before
                }));
            },
            None => {},
        }
        assert(self@ =~= old(self)@.help_scrolled(
            help_idx,
            help_row(old(self)@.apps[help_idx as int].help->0.scroll, back, n, limit, cap),
        ));
    }

    /// Takes a key for the help. Says nothing where it is none of its keys.
    pub fn key_help(&mut self, help_idx: usize, key: &Key) -> (r: Option<bool>)
        requires
            old(self).wf(),
            help_idx < old(self)@.apps.len(),
        ensures
            match old(self)@.help_key(help_idx, *key) {
                Some(d) => r == Some(true) && final(self)@ == d,
                None => r is None && final(self)@ == old(self)@,
            },
            final(self).wf(),
    {
        let (rows, limit) = self.room_of_help(help_idx);
        match *key {
            Key::Escape | Key::End => self.close_help(help_idx),
            Key::Up => self.scroll_help(help_idx, true, 1, limit, false),
            Key::PageUp => self.scroll_help(help_idx, true, rows, limit, false),
            Key::Down => self.scroll_help(help_idx, false, 1, limit, true),
            Key::PageDown => self.scroll_help(help_idx, false, rows, limit, true),
            _ => {
                return None;
            },
        }
        Some(true)
    }

    /// Takes a key for the start menu. Says nothing where it is none of its keys.
    pub fn key_menu(&mut self, menu_idx: usize, key: &Key) -> (r: Option<Outcome>)
        requires
            old(self).wf(),
            menu_idx < old(self)@.apps.len(),
        ensures
            match (r, old(self)@.menu_key(menu_idx, *key)) {
                (Some(out), Some((d, o))) => final(self)@ == d && out@ == o,
                (None, None) => final(self)@ == old(self)@,
                _ => false,
            },
            final(self).wf(),
    {
        if self.sel.is_some() && matches!(*key, Key::Escape) {
            self.deselect();
            self.release();
            return Some(Outcome::Done(true));
        }
        match *key {
            Key::Up | Key::Down | Key::Left | Key::Right => {
                match *key {
                    Key::Up => self.pointer.move_up(),
                    Key::Down => self.pointer.move_down(self.last_size.1),
                    Key::Left => self.pointer.move_left(),
                    _ => self.pointer.move_right(self.last_size.0),
                }
                assert(self@ =~= (DeskModel { pointer: self.pointer, ..old(self)@ }));
                match self.menu_item_under_pointer(menu_idx) {
                    Some(e) => self.select_menu_item(menu_idx, e),
                    None => {},
                }
                Some(Outcome::Done(true))
            },
            Key::Enter | Key::Char(' ') => {
                if self.menu_item_under_pointer(menu_idx).is_none() {
                    return None;
                }
                match self.selected_item(menu_idx) {
                    Some(item) => {
                        self.close_start_menu(menu_idx);
                        Some(Outcome::Ask(Ask::Launch { item }))
                    },
                    None => Some(Outcome::Done(false)),
                }
            },
            Key::Escape | Key::CtrlD => {
                self.close_start_menu(menu_idx);
                Some(Outcome::Done(true))
            },
            _ => None,
        }
    }

    /// Takes a press on an entry of the start menu: it is selected, the menu closes,
    /// and what the entry needs is asked for.
    pub(crate) fn press_menu(&mut self) -> (r: Option<Outcome>)
        requires
            old(self).wf(),
        ensures
            match (r, old(self)@.menu_pressed()) {
                (Some(out), Some((d, o))) => final(self)@ == d && out@ == o,
                (None, None) => final(self)@ == old(self)@,
                _ => false,
            },
            final(self).wf(),
    {
        match self.start_menu_idx() {
            Some(i) => match self.menu_item_under_pointer(i) {
                Some(e) => {
                    self.select_menu_item(i, e);
                    let item = self.selected_item(i);
                    self.close_start_menu(i);
                    match item {
                        Some(item) => Some(Outcome::Ask(Ask::Launch { item })),
                        None => Some(Outcome::Done(true)),
                    }
                },
                None => None,
            },
            None => None,
        }
    }
}

impl DeskModel {
    /// A press on an entry of the start menu, where it is one.
    pub open spec fn menu_pressed(self) -> Option<(DeskModel, OutcomeModel)> {
        match self.menu_at() {
            Some(i) => match self.entry_pointed(i) {
                Some(e) => {
                    let s = self.entry_selected(i, e);
                    Some(
                        (
                            s.dropped(i),
                            match s.entry_of(i) {
                                Some(item) => OutcomeModel::Ask(AskModel::Launch { item }),
                                None => OutcomeModel::Done(true),
                            },
                        ),
                    )
                },
                None => None,
            },
            None => None,
        }
    }
}

/// The row that a help is scrolled to, by `n` rows back or on, to the limit where
/// there is one.
pub open spec fn help_row(at: usize, back: bool, n: usize, limit: usize, cap: bool) -> usize {
    let to: int = if back {
        if at >= n {
            at - n
        } else {
            0
        }
    } else {
        if at + n <= usize::MAX {
            at + n
        } else {
            usize::MAX as int
        }
    };
    if cap && to > limit {
        limit
    } else {
        to as usize
    }
}

impl Desktop {
    /// Launches an entry of the menu. `home` is the home directory and `shell` the
    /// default shell; `lines` are those of the shared history; `session` is what was
    /// started for the entry.
    pub fn launch_menu_item(
        &mut self,
        item: &MenuItem,
        home: Option<&str>,
        shell: &str,
        lines: &[String],
        session: Option<ShellSession>,
    ) -> (r: Outcome)
        requires
            old(self).wf(),
        ensures
            (final(self)@, r@) == old(self)@.launched(
                item@,
                match home {
                    Some(h) => Some(h@),
                    None => None,
                },
                shell@,
                texts(lines@),
                session,
            ),
            final(self).wf(),
    {
        let desktop: usize = match item.desktop {
            Some(n) => n,
            None => self.current_desktop,
        };
        let i: usize = self.applications.len();
        let out = self.start_item(item, home, shell, lines, session);
        self.show_item(i, item.label.as_str(), desktop);
        match out {
            Outcome::Ask(a) => Outcome::Ask(a),
            Outcome::Done(_) => Outcome::Done(true),
        }
    }

    fn start_item(
        &mut self,
        item: &MenuItem,
        home: Option<&str>,
        shell: &str,
        lines: &[String],
        session: Option<ShellSession>,
    ) -> (r: Outcome)
        requires
            old(self).wf(),
        ensures
            (final(self)@, r@) == old(self)@.item_started(
                item@,
                match home {
                    Some(h) => Some(h@),
                    None => None,
                },
                shell@,
                texts(lines@),
                session,
            ),
            final(self)@.apps.len() == old(self)@.apps.len() + 1,
            final(self).wf(),
    {
        let start = item.start(self.current_path.as_str(), home, shell);
        let desktop: usize = match item.desktop {
            Some(n) => n,
            None => self.current_desktop,
        };
        match start.program {
            Some(program) => {
                self.spawn_program(desktop, start.cwd.as_str(), program.as_str(), session);
                Outcome::Done(true)
            },
            None => {
                let commands = self.shared_history_commands(lines);
                let i = self.spawn_terminal(desktop, start.cwd.as_str(), commands, session);
                let line = item.command_line();
                let runs = match item.kind {
                    MenuKind::Command => !is_empty(line.as_str()),
                    _ => false,
                };
                if runs {
                    self.type_and_run(i, line.as_str())
                } else {
                    Outcome::Done(true)
                }
            },
        }
    }

    fn show_item(&mut self, i: usize, label: &str, desktop: usize)
        requires
            old(self).wf(),
            i < old(self)@.apps.len(),
        ensures
            final(self)@ == old(self)@.item_shown(i, label@, desktop),
            final(self).wf(),
    {
        let ghost s = self@;
        assert(s.apps[i as int] == self.applications@[i as int]@);
        self.applications[i].title = label.to_owned();
        let ghost titled = DeskModel {
            apps: s.apps.update(i as int, AppModel { title: label@, ..s.apps[i as int] }),
            ..s
        };
        assert(self@ =~= titled);
        proof {
            assert forall|k: int| 0 <= k < self@.apps.len() implies #[trigger] self@.apps[k].wf() by {
                assert(s.apps[k].wf());
            }
        }
        if desktop != self.current_desktop {
            self.current_desktop = desktop;
            assert(self@ =~= (DeskModel { desktop, ..titled }));
            self.fit_tabs();
        }
        self.focus(i);
    }

    /// Types a line into a terminal and runs it.
    fn type_and_run(&mut self, app_idx: usize, line: &str) -> (r: Outcome)
        requires
            old(self).wf(),
            terminal_of(old(self)@.apps, app_idx) is Some,
        ensures
            (final(self)@, r@) == old(self)@.line_typed(app_idx, line@).line_entered(app_idx),
            final(self)@.apps.len() == old(self)@.apps.len(),
            final(self).wf(),
    {
        let ghost typed = TermStateModel {
            cmd_input: line@,
            input_cursor: line@.len() as usize,
            ..terminal_of(old(self)@.apps, app_idx)->0
        };
        match terminal_mut(&mut self.applications, app_idx) {
            Some(t) => {
                t.cmd_input = line.to_owned();
                t.input_cursor = chars_of(line).len();
                assert(t@ =~= typed);
            },
            None => {},
        }
        assert(self@ =~= old(self)@.with_terminal(app_idx, typed));
        self.run_terminal_line(app_idx)
    }
}

} // verus!

//! The applications of the desktop: plain windows, terminals, the start menu and
//! the help.
pub mod desktop;
pub mod pipe_laws;
pub mod terminal;

use vstd::prelude::*;
use vstd::string::*;
use crate::app::terminal::{ShellSession, TermStateModel, TerminalState};
use crate::cmd::{clone_entries, entries, CommandEntry, EntryModel};
use crate::help::{crib_sheet, HelpModel, HelpState};
use crate::menu::{MenuItem, MenuItemModel, MenuModel, MenuState};
use crate::ui::window::Window;

verus! {

/// How an application is shown.
#[derive(Debug, Clone, Copy, PartialEq, Eq, Structural)]
pub enum DisplayMode {
    Windowed(Window),
    Minimized(Window),
    /// `saved` is the window it goes back to.
    Maximized { display: Window, saved: Window },
}

/// A coordinate, cut off at the largest there is.
pub open spec fn sat16(v: int) -> u16 {
    if v > 0xffff {
        0xffff
    } else {
        v as u16
    }
}

impl DisplayMode {
    /// The window on the screen, where there is one.
    pub open spec fn window(self) -> Option<Window> {
        match self {
            DisplayMode::Windowed(w) => Some(w),
            DisplayMode::Maximized { display, .. } => Some(display),
            DisplayMode::Minimized(_) => None,
        }
    }

    /// The same with another window on the screen.
    pub open spec fn with_window(self, w: Window) -> DisplayMode {
        match self {
            DisplayMode::Windowed(_) => DisplayMode::Windowed(w),
            DisplayMode::Maximized { saved, .. } => DisplayMode::Maximized { display: w, saved },
            DisplayMode::Minimized(_) => self,
        }
    }

    pub open spec fn minimized(self) -> DisplayMode {
        match self {
            DisplayMode::Windowed(w) => DisplayMode::Minimized(w),
            _ => self,
        }
    }

    pub open spec fn restored(self) -> DisplayMode {
        match self {
            DisplayMode::Minimized(w) => DisplayMode::Windowed(w),
            _ => self,
        }
    }

    /// A window that fills a screen up to its border, the tabs and the status bar.
    pub open spec fn full_window(screen_w: u16, screen_h: u16, layer: u16) -> Window {
        Window::plain(
            2,
            1,
            if screen_w >= 5 {
                (screen_w - 5) as u16
            } else {
                0
            },
            if screen_h >= 4 {
                (screen_h - 4) as u16
            } else {
                0
            },
            layer,
        )
    }

    pub open spec fn maximized(self, screen_w: u16, screen_h: u16) -> DisplayMode {
        match self {
            DisplayMode::Windowed(w) => DisplayMode::Maximized {
                display: DisplayMode::full_window(screen_w, screen_h, w.layer),
                saved: w,
            },
            _ => self,
        }
    }

    pub open spec fn unmaximized(self) -> DisplayMode {
        match self {
            DisplayMode::Maximized { saved, .. } => DisplayMode::Windowed(saved),
            _ => self,
        }
    }

    /// An ordinary window at another place.
    pub open spec fn placed(self, x: u16, y: u16, w: u16, h: u16) -> DisplayMode {
        match self.window() {
            Some(t) => DisplayMode::Windowed(
                Window { position_x: x, position_y: y, width: w, height: h, ..t },
            ),
            None => self,
        }
    }
}

pub struct Application {
    pub title: String,
    pub display: DisplayMode,
    pub desktop: usize,
    /// A menu, which closes when it loses the focus.
    pub is_menu: bool,
    pub terminal: Option<TerminalState>,
    pub menu: Option<MenuState>,
    pub help: Option<HelpState>,
}

#[verifier::ext_equal]
pub struct AppModel {
    pub title: Seq<char>,
    pub display: DisplayMode,
    pub desktop: usize,
    pub is_menu: bool,
    pub terminal: Option<TermStateModel>,
    pub menu: Option<MenuModel>,
    pub help: Option<HelpModel>,
}

impl View for Application {
    type V = AppModel;

    open spec fn view(&self) -> AppModel {
        AppModel {
            title: self.title@,
            display: self.display,
            desktop: self.desktop,
            is_menu: self.is_menu,
            terminal: match self.terminal {
                Some(t) => Some(t@),
                None => None,
            },
            menu: match self.menu {
                Some(m) => Some(m@),
                None => None,
            },
            help: match self.help {
                Some(h) => Some(h@),
                None => None,
            },
        }
    }
}

/// The models of a list of applications.
pub open spec fn apps(v: Seq<Application>) -> Seq<AppModel> {
    Seq::new(v.len(), |i: int| v[i]@)
}

/// The models of a list of menu entries.
pub open spec fn menu_items(v: Seq<MenuItem>) -> Seq<MenuItemModel> {
    Seq::new(v.len(), |i: int| v[i]@)
}

/// The commands without their processes.
pub open spec fn at_rest(c: Seq<EntryModel>) -> Seq<EntryModel> {
    Seq::new(c.len(), |i: int| EntryModel { runner: None, ..c[i] })
}

impl AppModel {
    pub open spec fn wf(self) -> bool {
        self.terminal matches Some(t) ==> t.wf()
    }

    /// An application with nothing in its window.
    pub open spec fn plain(title: Seq<char>, window: Window, is_menu: bool) -> AppModel {
        AppModel {
            title,
            display: DisplayMode::Windowed(window),
            desktop: 1,
            is_menu,
            terminal: None,
            menu: None,
            help: None,
        }
    }

    /// A terminal with a shell; without one where none could be started.
    pub open spec fn with_shell(
        title: Seq<char>,
        window: Window,
        path: Seq<char>,
        commands: Seq<EntryModel>,
        session: Option<ShellSession>,
    ) -> AppModel {
        AppModel {
            terminal: Some(
                match session {
                    Some(s) => TermStateModel::shell(path, at_rest(commands), s),
                    None => TermStateModel::fresh(path, commands),
                },
            ),
            ..AppModel::plain(title, window, false)
        }
    }

    /// A terminal that a program fills; an empty one where it could not be started.
    pub open spec fn with_program(
        title: Seq<char>,
        window: Window,
        path: Seq<char>,
        session: Option<ShellSession>,
    ) -> AppModel {
        AppModel {
            terminal: Some(
                match session {
                    Some(s) => TermStateModel::program(path, s),
                    None => TermStateModel::fresh(path, Seq::empty()),
                },
            ),
            ..AppModel::plain(title, window, false)
        }
    }

    pub open spec fn with_menu(
        title: Seq<char>,
        window: Window,
        items: Seq<MenuItemModel>,
    ) -> AppModel {
        AppModel {
            menu: Some(MenuModel { items, selected: 0, scroll: 0 }),
            ..AppModel::plain(title, window, true)
        }
    }

    pub open spec fn with_help(title: Seq<char>, window: Window) -> AppModel {
        AppModel {
            help: Some(HelpModel { lines: crib_sheet(), scroll: 0 }),
            ..AppModel::plain(title, window, false)
        }
    }

    pub open spec fn on(self, desktop: usize) -> AppModel {
        AppModel { desktop, ..self }
    }

    pub open spec fn window(self) -> Option<Window> {
        self.display.window()
    }

    pub open spec fn shown_as(self, display: DisplayMode) -> AppModel {
        AppModel { display, ..self }
    }

    /// The application with another window on the screen, where it has one there.
    pub open spec fn with_window(self, w: Window) -> AppModel {
        self.shown_as(self.display.with_window(w))
    }
}

/// What is minimised and restored is as it was.
pub proof fn lemma_minimize_restore(w: Window)
    ensures
        DisplayMode::Windowed(w).minimized().restored() == DisplayMode::Windowed(w),
        DisplayMode::Windowed(w).minimized().window() is None,
{
}

/// What is maximised and restored is as it was.
pub proof fn lemma_maximize_restore(w: Window, screen_w: u16, screen_h: u16)
    ensures
        DisplayMode::Windowed(w).maximized(screen_w, screen_h).unmaximized()
            == DisplayMode::Windowed(w),
{
}

impl Application {
    pub open spec fn wf(&self) -> bool {
        self@.wf()
    }

    pub fn windowed(title: &str, window: Window) -> (a: Application)
        ensures
            a@ == AppModel::plain(title@, window, false),
            a.wf(),
    {
        let a = Application {
            title: title.to_owned(),
            display: DisplayMode::Windowed(window),
            desktop: 1,
            is_menu: false,
            terminal: None,
            menu: None,
            help: None,
        };
        assert(a@ =~= AppModel::plain(title@, window, false));
        a
    }

    pub fn menu(title: &str, window: Window) -> (a: Application)
        ensures
            a@ == AppModel::plain(title@, window, true),
            a.wf(),
    {
        let mut a = Application::windowed(title, window);
        a.is_menu = true;
        assert(a@ =~= AppModel::plain(title@, window, true));
        a
    }

    /// The start menu with its entries.
    pub fn start_menu(title: &str, window: Window, items: Vec<MenuItem>) -> (a: Application)
        ensures
            a@ == AppModel::with_menu(title@, window, menu_items(items@)),
            a.wf(),
    {
        let ghost list = menu_items(items@);
        let mut a = Application::menu(title, window);
        a.menu = Some(MenuState::new(items));
        assert(a@.menu->0 =~= MenuModel { items: list, selected: 0, scroll: 0 });
        assert(a@ =~= AppModel::with_menu(title@, window, list));
        a
    }

    pub fn help_window(title: &str, window: Window) -> (a: Application)
        ensures
            a@ == AppModel::with_help(title@, window),
            a.wf(),
    {
        let mut a = Application::windowed(title, window);
        a.help = Some(HelpState::new());
        assert(a@ =~= AppModel::with_help(title@, window));
        a
    }

    /// A terminal window. `session` is the shell that was started for it.
    pub fn terminal_window(
        title: &str,
        window: Window,
        path: String,
        commands: Vec<CommandEntry>,
        session: Option<ShellSession>,
    ) -> (a: Application)
        ensures
            a@ == AppModel::with_shell(title@, window, path@, entries(commands@), session),
            a.wf(),
    {
        let ghost given = entries(commands@);
        let t = match session {
            Some(s) => {
                let copies = clone_entries(&commands);
                assert(entries(copies@) =~= at_rest(given));
                TerminalState::with_shell(path, copies, s)
            },
            None => TerminalState::new(path, commands),
        };
        let mut a = Application::windowed(title, window);
        a.terminal = Some(t);
        assert(a@ =~= AppModel::with_shell(title@, window, path@, given, session));
        a
    }

    /// A window for an interactive program. `session` is the program that was
    /// started for it.
    pub fn interactive_terminal_window(
        title: &str,
        window: Window,
        path: String,
        session: Option<ShellSession>,
    ) -> (a: Application)
        ensures
            a@ == AppModel::with_program(title@, window, path@, session),
            a.wf(),
    {
        let t = match session {
            Some(s) => TerminalState::with_program(path, s),
            None => {
                let none: Vec<CommandEntry> = Vec::new();
                assert(entries(none@) =~= Seq::empty());
                TerminalState::new(path, none)
            },
        };
        let mut a = Application::windowed(title, window);
        a.terminal = Some(t);
        assert(a@ =~= AppModel::with_program(title@, window, path@, session));
        a
    }

    pub fn with_desktop(self, desktop: usize) -> (a: Application)
        ensures
            a@ == self@.on(desktop),
    {
        let mut a = self;
        a.desktop = desktop;
        assert(a@ =~= self@.on(desktop));
        a
    }

    pub fn on_desktop(&self, desktop: usize) -> (r: bool)
        ensures
            r == (self@.desktop == desktop),
    {
        self.desktop == desktop
    }

    /// The window on the screen, where there is one.
    pub fn window(&self) -> (r: Option<&Window>)
        ensures
            match r {
                Some(w) => self@.window() == Some(*w),
                None => self@.window() is None,
            },
    {
        match &self.display {
            DisplayMode::Windowed(w) => Some(w),
            DisplayMode::Maximized { display, .. } => Some(display),
            DisplayMode::Minimized(_) => None,
        }
    }

    /// The window that a maximised application goes back to.
    pub fn saved_window(&self) -> (r: Option<&Window>)
        ensures
            match r {
                Some(w) => self@.display matches DisplayMode::Maximized { saved, .. } && saved
                    == *w,
                None => !(self@.display is Maximized),
            },
    {
        match &self.display {
            DisplayMode::Maximized { saved, .. } => Some(saved),
            _ => None,
        }
    }

    /// The window on the screen, to be changed.
    pub fn window_mut(&mut self) -> (r: Option<&mut Window>)
        ensures
            match r {
                Some(w) => old(self)@.window() == Some(*w) && final(self)@ == old(
                    self,
                )@.with_window(*final(w)),
                None => old(self)@.window() is None && final(self)@ == old(self)@,
            },
    {
        match &mut self.display {
            DisplayMode::Windowed(w) => Some(w),
            DisplayMode::Maximized { display, .. } => Some(display),
            DisplayMode::Minimized(_) => None,
        }
    }

    /// Replaces the window on the screen.
    pub fn set_window(&mut self, w: Window)
        ensures
            final(self)@ == old(self)@.with_window(w),
    {
        self.display = match self.display {
            DisplayMode::Windowed(_) => DisplayMode::Windowed(w),
            DisplayMode::Maximized { saved, .. } => DisplayMode::Maximized { display: w, saved },
            DisplayMode::Minimized(v) => DisplayMode::Minimized(v),
        };
        assert(self@ =~= old(self)@.with_window(w));
    }

    pub fn is_minimized(&self) -> (r: bool)
        ensures
            r == (self@.display is Minimized),
    {
        matches!(self.display, DisplayMode::Minimized(_))
    }

    pub fn is_maximized(&self) -> (r: bool)
        ensures
            r == (self@.display is Maximized),
    {
        matches!(self.display, DisplayMode::Maximized { .. })
    }

    pub fn minimize(&mut self)
        ensures
            final(self)@ == old(self)@.shown_as(old(self)@.display.minimized()),
    {
        self.display = match self.display {
            DisplayMode::Windowed(w) => DisplayMode::Minimized(w),
            other => other,
        };
        assert(self@ =~= old(self)@.shown_as(old(self)@.display.minimized()));
    }

    pub fn restore(&mut self)
        ensures
            final(self)@ == old(self)@.shown_as(old(self)@.display.restored()),
    {
        self.display = match self.display {
            DisplayMode::Minimized(w) => DisplayMode::Windowed(w),
            other => other,
        };
        assert(self@ =~= old(self)@.shown_as(old(self)@.display.restored()));
    }

    /// Fills the screen, keeping the window to go back to.
    pub fn maximize(&mut self, screen_w: u16, screen_h: u16)
        ensures
            final(self)@ == old(self)@.shown_as(old(self)@.display.maximized(screen_w, screen_h)),
    {
        self.display = match self.display {
            DisplayMode::Windowed(w) => DisplayMode::Maximized {
                display: Window::new(
                    2,
                    1,
                    screen_w.saturating_sub(5),
                    screen_h.saturating_sub(4),
                    w.layer,
                ),
                saved: w,
            },
            other => other,
        };
        assert(self@ =~= old(self)@.shown_as(old(self)@.display.maximized(screen_w, screen_h)));
    }

    pub fn restore_maximize(&mut self)
        ensures
            final(self)@ == old(self)@.shown_as(old(self)@.display.unmaximized()),
    {
        self.display = match self.display {
            DisplayMode::Maximized { saved, .. } => DisplayMode::Windowed(saved),
            other => other,
        };
        assert(self@ =~= old(self)@.shown_as(old(self)@.display.unmaximized()));
    }

    /// Puts the window on the screen somewhere else, as an ordinary window.
    pub fn set_window_geometry(&mut self, position_x: u16, position_y: u16, width: u16, height: u16)
        ensures
            final(self)@ == old(self)@.shown_as(
                old(self)@.display.placed(position_x, position_y, width, height),
            ),
    {
        match self.display {
            DisplayMode::Windowed(t) => {
                self.display = DisplayMode::Windowed(
                    Window { position_x, position_y, width, height, ..t },
                );
            },
            DisplayMode::Maximized { display: t, .. } => {
                self.display = DisplayMode::Windowed(
                    Window { position_x, position_y, width, height, ..t },
                );
            },
            DisplayMode::Minimized(_) => {},
        }
        assert(self@ =~= old(self)@.shown_as(
            old(self)@.display.placed(position_x, position_y, width, height),
        ));
    }
}

} // verus!

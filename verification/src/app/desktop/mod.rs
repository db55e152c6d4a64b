//! The desktop: everything that changes while it runs, and what input does to it.
//!
//! What has to be done outside is put into the outbox. Where input needs something
//! from outside to go on, it is answered with what it asks for, and a method of its
//! own takes the answer.

pub mod action_laws;
pub mod dock;
pub mod edit;
pub mod focus;
pub mod frame;
pub mod frame_laws;
pub mod keys;
pub mod laws;
pub mod layout;
pub mod line_laws;
pub mod lines;
pub mod mouse;
pub mod mouse_laws;
pub mod program;
pub mod scroll_laws;
pub mod window_laws;
pub mod windows;

use vstd::prelude::*;
use vstd::string::*;
use crate::app::terminal::{TermStateModel, TerminalState};
use crate::app::{apps, AppModel, Application};
use crate::cmd::{entries, kind_of, CommandEntry, CommandStatus, EntryModel};
use crate::config::{Config, ConfigModel};
use crate::help::HelpState;
use crate::menu::{MenuItem, MenuItemModel, MenuState};
use crate::num::min_len;
use crate::os::Key;
use crate::session::{Session, SessionModel};
use crate::text::trim;
use crate::ui::pointer::Pointer;
use crate::ui::screen::{BoxSelect, GridModel, ScreenGrid};
use crate::ui::window::Window;
use crate::wm::{
    all_wf, find_last, last_of, max_tab_scroll, mode_targets_desktop, on_target,
    place_pointer_on_terminal_input, pointed, remove_app, tab_place, Mode, ModeModel,
    SplitDirection,
};

verus! {

/// What is to be done outside.
#[derive(Debug)]
pub enum Effect {
    /// Bytes go to a session.
    Write { session: usize, bytes: Vec<u8> },
    /// The terminal of a session has a new size.
    Resize { session: usize, cols: u16, rows: u16 },
    /// A session ends.
    Kill { session: usize },
    /// A running command ends.
    Stop { runner: usize },
    /// A text goes to the clipboard.
    Copy { text: String },
    /// A line goes to the shared history.
    Remember { line: String },
    /// The layout is saved.
    Save { layout: Session },
}

#[verifier::ext_equal]
pub enum EffectModel {
    Write { session: usize, bytes: Seq<u8> },
    Resize { session: usize, cols: u16, rows: u16 },
    Kill { session: usize },
    Stop { runner: usize },
    Copy { text: Seq<char> },
    Remember { line: Seq<char> },
    Save { layout: SessionModel },
}

impl View for Effect {
    type V = EffectModel;

    open spec fn view(&self) -> EffectModel {
        match *self {
            Effect::Write { session, bytes } => EffectModel::Write { session, bytes: bytes@ },
            Effect::Resize { session, cols, rows } => EffectModel::Resize { session, cols, rows },
            Effect::Kill { session } => EffectModel::Kill { session },
            Effect::Stop { runner } => EffectModel::Stop { runner },
            Effect::Copy { text } => EffectModel::Copy { text: text@ },
            Effect::Remember { line } => EffectModel::Remember { line: line@ },
            Effect::Save { layout } => EffectModel::Save { layout: layout@ },
        }
    }
}

/// The models of a list of effects.
pub open spec fn effects(v: Seq<Effect>) -> Seq<EffectModel> {
    Seq::new(v.len(), |i: int| v[i]@)
}

/// What input asks for before it can go on.
pub enum Ask {
    /// The entries of the start menu: `open_start_menu` takes them.
    Menu,
    /// The shared history and a shell in the current path: `open_terminal`.
    Terminal,
    /// A shell in the current path: `move_dock_to_terminal`.
    DockTerminal,
    /// A shell in `path`: `split_terminal`.
    Split { direction: SplitDirection, path: String },
    /// The arrow keys that are held: `snap_window`.
    HeldArrows { key: Key },
    /// Suggestions for the word at the cursor of the dock: `complete_dock`.
    CompleteDock,
    /// Suggestions for the word at the cursor of a terminal: `complete_terminal`.
    CompleteTerminal { app_idx: usize },
    /// A program in the current path, the default shell where none is named:
    /// `open_program`.
    Program { program: Option<String>, line: String },
    /// What the line needs from outside: `run_dock_command`.
    DockCommand { line: String },
    /// What the line needs from outside: `run_terminal_command`.
    TerminalCommand { app_idx: usize, line: String },
    /// The text of the clipboard: `paste`.
    Paste { app_idx: usize },
    /// What an entry of the menu needs from outside: `launch_menu_item`.
    Launch { item: MenuItem },
}

#[verifier::ext_equal]
pub enum AskModel {
    Menu,
    Terminal,
    DockTerminal,
    Split { direction: SplitDirection, path: Seq<char> },
    HeldArrows { key: Key },
    CompleteDock,
    CompleteTerminal { app_idx: usize },
    Program { program: Option<Seq<char>>, line: Seq<char> },
    DockCommand { line: Seq<char> },
    TerminalCommand { app_idx: usize, line: Seq<char> },
    Paste { app_idx: usize },
    Launch { item: MenuItemModel },
}

impl View for Ask {
    type V = AskModel;

    open spec fn view(&self) -> AskModel {
        match *self {
            Ask::Menu => AskModel::Menu,
            Ask::Terminal => AskModel::Terminal,
            Ask::DockTerminal => AskModel::DockTerminal,
            Ask::Split { direction, path } => AskModel::Split { direction, path: path@ },
            Ask::HeldArrows { key } => AskModel::HeldArrows { key },
            Ask::CompleteDock => AskModel::CompleteDock,
            Ask::CompleteTerminal { app_idx } => AskModel::CompleteTerminal { app_idx },
            Ask::Program { program, line } => AskModel::Program {
                program: match program {
                    Some(p) => Some(p@),
                    None => None,
                },
                line: line@,
            },
            Ask::DockCommand { line } => AskModel::DockCommand { line: line@ },
            Ask::TerminalCommand { app_idx, line } => AskModel::TerminalCommand {
                app_idx,
                line: line@,
            },
            Ask::Paste { app_idx } => AskModel::Paste { app_idx },
            Ask::Launch { item } => AskModel::Launch { item: item@ },
        }
    }
}

/// What came of input: whether the screen is to be drawn again, or what it asks
/// for.
pub enum Outcome {
    Done(bool),
    Ask(Ask),
}

#[verifier::ext_equal]
pub enum OutcomeModel {
    Done(bool),
    Ask(AskModel),
}

impl View for Outcome {
    type V = OutcomeModel;

    open spec fn view(&self) -> OutcomeModel {
        match *self {
            Outcome::Done(b) => OutcomeModel::Done(b),
            Outcome::Ask(a) => OutcomeModel::Ask(a@),
        }
    }
}

/// The running desktop. Times are in milliseconds on one clock.
pub struct Desktop {
    pub mode: Mode,
    pub scroll_offset: usize,
    pub tab_scroll: usize,
    pub panel_scroll: usize,
    pub current_desktop: usize,
    pub next_terminal_id: usize,
    pub last_space_time: Option<u64>,
    pub current_path: String,
    pub cmd_input: String,
    pub cmd_cursor: usize,
    pub history_index: Option<usize>,
    pub history_draft: Option<String>,
    pub last_size: (u16, u16),
    pub pointer: Pointer,
    pub applications: Vec<Application>,
    pub commands: Vec<CommandEntry>,
    /// The last frame, which selections take their text from.
    pub screen: ScreenGrid,
    /// The selected box.
    pub sel: Option<BoxSelect>,
    /// The column and row at which the selection ends.
    pub sel_pos: Option<(u16, u16)>,
    /// The text copied last.
    pub clipboard: String,
    pub config: Config,
    /// The next frame is drawn on a cleared screen.
    pub full_redraw: bool,
    /// When the mouse was last used.
    pub last_mouse: Option<u64>,
    /// Events of the mouse are taken.
    pub mouse_enabled: bool,
    /// Where the left button went down, while it is held.
    pub mouse_down: Option<(u16, u16)>,
    /// The held button draws a selection.
    pub mouse_selecting: bool,
    pub quit: bool,
    /// What is to be done outside.
    pub outbox: Vec<Effect>,
}

#[verifier::ext_equal]
pub struct DeskModel {
    pub mode: ModeModel,
    pub scroll_offset: usize,
    pub tab_scroll: usize,
    pub panel_scroll: usize,
    pub desktop: usize,
    pub next_id: usize,
    pub last_space: Option<u64>,
    pub path: Seq<char>,
    pub input: Seq<char>,
    pub cursor: usize,
    pub index: Option<usize>,
    pub draft: Option<Seq<char>>,
    pub size: (u16, u16),
    pub pointer: Pointer,
    pub apps: Seq<AppModel>,
    pub commands: Seq<EntryModel>,
    pub screen: GridModel,
    pub sel: Option<BoxSelect>,
    pub sel_pos: Option<(u16, u16)>,
    pub clipboard: Seq<char>,
    pub config: ConfigModel,
    pub full_redraw: bool,
    pub last_mouse: Option<u64>,
    pub mouse_enabled: bool,
    pub mouse_down: Option<(u16, u16)>,
    pub mouse_selecting: bool,
    pub quit: bool,
    pub outbox: Seq<EffectModel>,
}

impl View for Desktop {
    type V = DeskModel;

    open spec fn view(&self) -> DeskModel {
        DeskModel {
            mode: self.mode@,
            scroll_offset: self.scroll_offset,
            tab_scroll: self.tab_scroll,
            panel_scroll: self.panel_scroll,
            desktop: self.current_desktop,
            next_id: self.next_terminal_id,
            last_space: self.last_space_time,
            path: self.current_path@,
            input: self.cmd_input@,
            cursor: self.cmd_cursor,
            index: self.history_index,
            draft: match self.history_draft {
                Some(s) => Some(s@),
                None => None,
            },
            size: self.last_size,
            pointer: self.pointer,
            apps: apps(self.applications@),
            commands: entries(self.commands@),
            screen: self.screen@,
            sel: self.sel,
            sel_pos: self.sel_pos,
            clipboard: self.clipboard@,
            config: self.config@,
            full_redraw: self.full_redraw,
            last_mouse: self.last_mouse,
            mouse_enabled: self.mouse_enabled,
            mouse_down: self.mouse_down,
            mouse_selecting: self.mouse_selecting,
            quit: self.quit,
            outbox: effects(self.outbox@),
        }
    }
}

/// Whether `t` is less than `span` before `now`.
pub open spec fn within(t: Option<u64>, now: u64, span: int) -> bool {
    t matches Some(v) && now - v < span
}

/// Whether `t` is less than `span` before `now`.
pub fn is_within(t: Option<u64>, now: u64, span: u64) -> (r: bool)
    ensures
        r == within(t, now, span as int),
{
    match t {
        Some(v) => now.saturating_sub(v) < span || now < v,
        None => false,
    }
}

/// A line as it was remembered, with itself as its output.
pub open spec fn recalled_entry(line: Seq<char>, cwd: Seq<char>) -> EntryModel {
    EntryModel {
        command: trim(line),
        cwd,
        output_lines: seq![line],
        status: CommandStatus::Complete,
        kind: kind_of(trim(line)),
        runner: None,
    }
}

/// The list with another state of the terminal of application `i`.
pub open spec fn with_terminal(a: Seq<AppModel>, i: int, t: TermStateModel) -> Seq<AppModel> {
    a.update(i, AppModel { terminal: Some(t), ..a[i] })
}

/// The terminal of application `i`, where it has one.
pub open spec fn terminal_of(a: Seq<AppModel>, i: usize) -> Option<TermStateModel> {
    if i < a.len() {
        a[i as int].terminal
    } else {
        None
    }
}

/// The terminal of an application, to be changed.
pub fn terminal_mut(applications: &mut Vec<Application>, i: usize) -> (r: Option<
    &mut TerminalState,
>)
    ensures
        match r {
            Some(t) => {
                &&& i < old(applications)@.len()
                &&& apps(old(applications)@)[i as int].terminal == Some(t@)
                &&& all_wf(apps(old(applications)@)) ==> t.wf()
                &&& apps(final(applications)@) == with_terminal(
                    apps(old(applications)@),
                    i as int,
                    final(t)@,
                )
                &&& all_wf(apps(old(applications)@)) && final(t)@.wf() ==> all_wf(
                    apps(final(applications)@),
                )
            },
            None => {
                &&& terminal_of(apps(old(applications)@), i) is None
                &&& apps(final(applications)@) == apps(old(applications)@)
            },
        },
{
    if i >= applications.len() {
        return None;
    }
    let ghost before = apps(applications@);
    assert(before[i as int] == applications@[i as int]@);
    let app = &mut applications[i];
    match &mut app.terminal {
        Some(t) => Some(t),
        None => None,
    }
}

/// The help of an application, to be changed.
pub fn help_mut(applications: &mut Vec<Application>, i: usize) -> (r: Option<&mut HelpState>)
    ensures
        match r {
            Some(t) => {
                let a = apps(old(applications)@);
                &&& i < old(applications)@.len()
                &&& a[i as int].help == Some(t@)
                &&& apps(final(applications)@) == a.update(
                    i as int,
                    AppModel { help: Some(final(t)@), ..a[i as int] },
                )
            },
            None => {
                &&& i >= old(applications)@.len() || apps(old(applications)@)[i as int].help is None
                &&& apps(final(applications)@) == apps(old(applications)@)
            },
        },
        all_wf(apps(old(applications)@)) ==> all_wf(apps(final(applications)@)),
{
    if i >= applications.len() {
        return None;
    }
    let ghost before = apps(applications@);
    assert(before[i as int] == applications@[i as int]@);
    let app = &mut applications[i];
    match &mut app.help {
        Some(t) => Some(t),
        None => None,
    }
}

/// The menu of an application, to be changed.
pub fn menu_mut(applications: &mut Vec<Application>, i: usize) -> (r: Option<&mut MenuState>)
    ensures
        match r {
            Some(t) => {
                let a = apps(old(applications)@);
                &&& i < old(applications)@.len()
                &&& a[i as int].menu == Some(t@)
                &&& apps(final(applications)@) == a.update(
                    i as int,
                    AppModel { menu: Some(final(t)@), ..a[i as int] },
                )
            },
            None => {
                &&& i >= old(applications)@.len() || apps(old(applications)@)[i as int].menu is None
                &&& apps(final(applications)@) == apps(old(applications)@)
            },
        },
        all_wf(apps(old(applications)@)) ==> all_wf(apps(final(applications)@)),
{
    if i >= applications.len() {
        return None;
    }
    let ghost before = apps(applications@);
    assert(before[i as int] == applications@[i as int]@);
    let app = &mut applications[i];
    match &mut app.menu {
        Some(t) => Some(t),
        None => None,
    }
}

/// The window of an application on the screen, to be changed.
pub fn window_mut_of(applications: &mut Vec<Application>, i: usize) -> (r: Option<&mut Window>)
    ensures
        match r {
            Some(t) => {
                let a = apps(old(applications)@);
                &&& i < old(applications)@.len()
                &&& a[i as int].window() == Some(*t)
                &&& apps(final(applications)@) == a.update(
                    i as int,
                    a[i as int].with_window(*final(t)),
                )
            },
            None => {
                &&& i >= old(applications)@.len() || apps(old(applications)@)[i as int].window() is None
                &&& apps(final(applications)@) == apps(old(applications)@)
            },
        },
        all_wf(apps(old(applications)@)) ==> all_wf(apps(final(applications)@)),
{
    if i >= applications.len() {
        return None;
    }
    let ghost before = apps(applications@);
    assert(before[i as int] == applications@[i as int]@);
    let app = &mut applications[i];
    app.window_mut()
}

/// The window of application `i` on the screen, where it has one.
pub open spec fn window_of(a: Seq<AppModel>, i: usize) -> Option<Window> {
    if i < a.len() {
        a[i as int].window()
    } else {
        None
    }
}

/// The window of an application on the screen.
pub fn find_window(applications: &Vec<Application>, i: usize) -> (r: Option<Window>)
    ensures
        r == window_of(apps(applications@), i),
{
    if i < applications.len() {
        assert(apps(applications@)[i as int] == applications@[i as int]@);
        match applications[i].window() {
            Some(w) => Some(*w),
            None => None,
        }
    } else {
        None
    }
}

impl DeskModel {
    pub open spec fn wf(self) -> bool {
        &&& all_wf(self.apps)
        &&& self.size.1 >= 2
        &&& self.pointer.x < 0xffff
        &&& self.pointer.y < 0xffff
        &&& self.screen.wf()
    }

    pub open spec fn emitted(self, e: EffectModel) -> DeskModel {
        DeskModel { outbox: self.outbox.push(e), ..self }
    }

    /// The tabs scrolled no further than they go.
    pub open spec fn tabs_fitted(self) -> DeskModel {
        DeskModel {
            tab_scroll: tab_place(self.apps, self.desktop, self.size.1, self.tab_scroll),
            ..self
        }
    }

    /// The desktop without application `i`.
    pub open spec fn dropped(self, i: usize) -> DeskModel {
        DeskModel { apps: self.apps.remove(i as int), ..self }.tabs_fitted()
    }

    /// Another desktop shown. A mode for an application elsewhere ends.
    pub open spec fn switched(self, desktop: usize) -> DeskModel {
        let s = DeskModel { desktop, ..self }.tabs_fitted();
        if on_target(s.mode, s.apps, desktop) {
            s
        } else {
            DeskModel { mode: ModeModel::Normal, ..s }
        }
    }

    pub open spec fn pointed_at(self, i: usize) -> DeskModel {
        DeskModel {
            pointer: pointed(self.pointer, self.apps, i, self.size.0, self.size.1),
            ..self
        }
    }

    /// Keys go to a terminal, with the pointer on its input.
    pub open spec fn focused(self, i: usize) -> DeskModel {
        DeskModel { mode: ModeModel::TerminalFocus { app_idx: i }, ..self.pointed_at(i) }
    }

    pub open spec fn deselected(self) -> DeskModel {
        DeskModel { sel: None, sel_pos: None, ..self }
    }

    /// No button is held.
    pub open spec fn released(self) -> DeskModel {
        DeskModel { mouse_down: None, mouse_selecting: false, ..self }
    }

    /// Back to the desktop, with no button held.
    pub open spec fn left(self) -> DeskModel {
        DeskModel { mode: ModeModel::Normal, ..self.released() }
    }

    /// The start menu on this desktop.
    pub open spec fn menu_at(self) -> Option<usize> {
        last_of(self.apps, self.desktop, false, self.apps.len() as int)
    }

    /// The help on this desktop.
    pub open spec fn help_at(self) -> Option<usize> {
        last_of(self.apps, self.desktop, true, self.apps.len() as int)
    }
}

impl Desktop {
    pub open spec fn wf(&self) -> bool {
        self@.wf()
    }

    pub(crate) fn emit(&mut self, e: Effect)
        ensures
            final(self)@ == old(self)@.emitted(e@),
    {
        self.outbox.push(e);
        assert(effects(self.outbox@) =~= effects(old(self).outbox@).push(e@));
        assert(self@ =~= old(self)@.emitted(e@));
    }

    /// What is to be done outside, which leaves the outbox.
    pub fn take_effects(&mut self) -> (v: Vec<Effect>)
        ensures
            effects(v@) == old(self)@.outbox,
            final(self)@ == (DeskModel { outbox: Seq::empty(), ..old(self)@ }),
    {
        let mut v: Vec<Effect> = Vec::new();
        std::mem::swap(&mut v, &mut self.outbox);
        assert(self@ =~= (DeskModel { outbox: Seq::empty(), ..old(self)@ }));
        v
    }

    pub(crate) fn fit_tabs(&mut self)
        ensures
            final(self)@ == old(self)@.tabs_fitted(),
    {
        self.tab_scroll = min_len(
            self.tab_scroll,
            max_tab_scroll(&self.applications, self.current_desktop, self.last_size.1),
        );
        assert(self@ =~= old(self)@.tabs_fitted());
    }

    pub(crate) fn drop_app(&mut self, i: usize)
        requires
            old(self).wf(),
            i < old(self)@.apps.len(),
        ensures
            final(self)@ == old(self)@.dropped(i),
            final(self).wf(),
    {
        remove_app(&mut self.applications, i);
        assert(self@ =~= (DeskModel { apps: old(self)@.apps.remove(i as int), ..old(self)@ }));
        self.fit_tabs();
    }

    pub(crate) fn switch_desktop(&mut self, desktop: usize)
        requires
            old(self).wf(),
        ensures
            final(self)@ == old(self)@.switched(desktop),
            final(self).wf(),
    {
        self.current_desktop = desktop;
        assert(self@ =~= (DeskModel { desktop, ..old(self)@ }));
        self.fit_tabs();
        if !mode_targets_desktop(&self.mode, &self.applications, self.current_desktop) {
            self.mode = Mode::Normal;
        }
        assert(self@ =~= old(self)@.switched(desktop));
    }

    pub(crate) fn point_at(&mut self, i: usize)
        requires
            old(self).wf(),
        ensures
            final(self)@ == old(self)@.pointed_at(i),
            final(self).wf(),
    {
        place_pointer_on_terminal_input(
            &mut self.pointer,
            &self.applications,
            i,
            self.last_size.0,
            self.last_size.1,
        );
        assert(self@ =~= old(self)@.pointed_at(i));
    }

    pub(crate) fn focus(&mut self, i: usize)
        requires
            old(self).wf(),
        ensures
            final(self)@ == old(self)@.focused(i),
            final(self).wf(),
    {
        self.point_at(i);
        self.mode = Mode::TerminalFocus { app_idx: i };
        assert(self@ =~= old(self)@.focused(i));
    }

    pub(crate) fn deselect(&mut self)
        ensures
            final(self)@ == old(self)@.deselected(),
    {
        self.sel = None;
        self.sel_pos = None;
        assert(self@ =~= old(self)@.deselected());
    }

    pub(crate) fn release(&mut self)
        ensures
            final(self)@ == old(self)@.released(),
    {
        self.mouse_down = None;
        self.mouse_selecting = false;
        assert(self@ =~= old(self)@.released());
    }

    pub(crate) fn leave(&mut self)
        ensures
            final(self)@ == old(self)@.left(),
    {
        self.release();
        self.mode = Mode::Normal;
        assert(self@ =~= old(self)@.left());
    }

    /// The open start menu on the current desktop.
    pub fn start_menu_idx(&self) -> (r: Option<usize>)
        ensures
            r == self@.menu_at(),
            r matches Some(i) ==> i < self@.apps.len(),
    {
        find_last(&self.applications, self.current_desktop, false)
    }

    /// The open help on the current desktop.
    pub fn help_idx(&self) -> (r: Option<usize>)
        ensures
            r == self@.help_at(),
            r matches Some(i) ==> i < self@.apps.len(),
    {
        find_last(&self.applications, self.current_desktop, true)
    }

    /// The application that the mode is about.
    pub fn mode_app_idx(&self) -> (r: Option<usize>)
        ensures
            r == self@.mode.target(),
    {
        self.mode.target()
    }
}

} // verus!

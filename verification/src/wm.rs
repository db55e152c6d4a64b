//! The window manager: which window is in front, where windows go, and what the
//! commands for the active window do.
use vstd::prelude::*;
use vstd::string::*;
use vstd::utf8::encode_utf8;
use crate::app::terminal::{ShellSession, TermStateModel};
use crate::app::{apps, menu_items, sat16, AppModel, Application, DisplayMode};
use crate::cmd::{
    builtin_output, clone_entries, entries, kind_of, CommandEntry, CommandStatus, EntryModel,
};
use crate::help::crib_sheet;
use crate::menu::{MenuItem, MenuItemModel};
use crate::num::{max16, max_len, min16, min_len};
use crate::os::{HeldArrowKeys, Key};
use crate::text::{
    begins_with, chars_are, chars_of, dec, first_word, first_word_chars, push_chars, push_dec,
    push_line, slice_chars, texts, to_text, trim, trim_chars,
};
use crate::ui::panel::{content_width, terminal_content_width};
use crate::ui::pointer::{inside, Pointer};
use crate::ui::screen::{number_of, parse_number};
use crate::ui::window::{Window, MIN_H, MIN_W};
use crate::ui::TERMINAL_PREFIX_LEN;

verus! {

// ── Modes ────────────────────────────────────────────────────────────────────

#[derive(Debug, Clone, Copy, PartialEq, Eq, Structural)]
pub enum ResizeAxis {
    Width,
    Height,
}

#[derive(Debug, Clone, Copy, PartialEq, Eq, Structural)]
pub enum ResizeOp {
    Add,
    Sub,
    Assign,
}

/// A size being typed.
#[derive(Debug)]
pub struct ResizeEditState {
    pub axis: ResizeAxis,
    pub op: Option<ResizeOp>,
    pub value: String,
}

#[verifier::ext_equal]
pub struct EditModel {
    pub axis: ResizeAxis,
    pub op: Option<ResizeOp>,
    pub value: Seq<char>,
}

impl View for ResizeEditState {
    type V = EditModel;

    open spec fn view(&self) -> EditModel {
        EditModel { axis: self.axis, op: self.op, value: self.value@ }
    }
}

/// What keys do.
#[derive(Debug)]
pub enum Mode {
    Normal,
    Moving { app_idx: usize, offset_x: u16 },
    Resizing { app_idx: usize, edit: Option<ResizeEditState> },
    Typing,
    TerminalFocus { app_idx: usize },
}

#[verifier::ext_equal]
pub enum ModeModel {
    Normal,
    Moving { app_idx: usize, offset_x: u16 },
    Resizing { app_idx: usize, edit: Option<EditModel> },
    Typing,
    TerminalFocus { app_idx: usize },
}

impl View for Mode {
    type V = ModeModel;

    open spec fn view(&self) -> ModeModel {
        match *self {
            Mode::Normal => ModeModel::Normal,
            Mode::Moving { app_idx, offset_x } => ModeModel::Moving { app_idx, offset_x },
            Mode::Resizing { app_idx, edit } => ModeModel::Resizing {
                app_idx,
                edit: match edit {
                    Some(e) => Some(e@),
                    None => None,
                },
            },
            Mode::Typing => ModeModel::Typing,
            Mode::TerminalFocus { app_idx } => ModeModel::TerminalFocus { app_idx },
        }
    }
}

impl ModeModel {
    /// The application that the mode is about.
    pub open spec fn target(self) -> Option<usize> {
        match self {
            ModeModel::Moving { app_idx, .. } => Some(app_idx),
            ModeModel::Resizing { app_idx, .. } => Some(app_idx),
            ModeModel::TerminalFocus { app_idx } => Some(app_idx),
            ModeModel::Normal => None,
            ModeModel::Typing => None,
        }
    }
}

impl Mode {
    /// The application that the mode is about.
    pub fn target(&self) -> (r: Option<usize>)
        ensures
            r == self@.target(),
    {
        match self {
            Mode::Moving { app_idx, .. } => Some(*app_idx),
            Mode::Resizing { app_idx, .. } => Some(*app_idx),
            Mode::TerminalFocus { app_idx } => Some(*app_idx),
            Mode::Normal => None,
            Mode::Typing => None,
        }
    }
}

#[derive(Debug, Clone, Copy, PartialEq, Eq, Structural)]
pub enum SnapRegion {
    Left,
    Right,
    Top,
    Bottom,
    TopLeft,
    TopRight,
    BottomLeft,
    BottomRight,
}

/// The region that an arrow key with Alt stands for, with the other arrow keys
/// that are held: an arrow of the other axis makes it a quarter.
pub open spec fn region_for(key: Key, held: HeldArrowKeys) -> Option<SnapRegion> {
    match key {
        Key::AltLeft => Some(
            if held.up {
                SnapRegion::TopLeft
            } else if held.down {
                SnapRegion::BottomLeft
            } else {
                SnapRegion::Left
            },
        ),
        Key::AltRight => Some(
            if held.up {
                SnapRegion::TopRight
            } else if held.down {
                SnapRegion::BottomRight
            } else {
                SnapRegion::Right
            },
        ),
        Key::AltUp => Some(
            if held.left {
                SnapRegion::TopLeft
            } else if held.right {
                SnapRegion::TopRight
            } else {
                SnapRegion::Top
            },
        ),
        Key::AltDown => Some(
            if held.left {
                SnapRegion::BottomLeft
            } else if held.right {
                SnapRegion::BottomRight
            } else {
                SnapRegion::Bottom
            },
        ),
        _ => None,
    }
}

pub fn resolve_snap_region(key: &Key, held: HeldArrowKeys) -> (r: Option<SnapRegion>)
    ensures
        r == region_for(*key, held),
{
    match *key {
        Key::AltLeft => Some(
            if held.up {
                SnapRegion::TopLeft
            } else if held.down {
                SnapRegion::BottomLeft
            } else {
                SnapRegion::Left
            },
        ),
        Key::AltRight => Some(
            if held.up {
                SnapRegion::TopRight
            } else if held.down {
                SnapRegion::BottomRight
            } else {
                SnapRegion::Right
            },
        ),
        Key::AltUp => Some(
            if held.left {
                SnapRegion::TopLeft
            } else if held.right {
                SnapRegion::TopRight
            } else {
                SnapRegion::Top
            },
        ),
        Key::AltDown => Some(
            if held.left {
                SnapRegion::BottomLeft
            } else if held.right {
                SnapRegion::BottomRight
            } else {
                SnapRegion::Bottom
            },
        ),
        _ => None,
    }
}

// ── Paths and shell commands ─────────────────────────────────────────────────

/// A path without the prefix that Windows puts before resolved paths.
pub open spec fn host_path(path: Seq<char>, windows: bool) -> Seq<char> {
    if windows && "\\\\?\\UNC\\"@.is_prefix_of(path) {
        "\\\\"@ + path.skip("\\\\?\\UNC\\"@.len() as int)
    } else if windows && "\\\\?\\"@.is_prefix_of(path) {
        path.skip("\\\\?\\"@.len() as int)
    } else {
        path
    }
}

/// A resolved path as it is shown.
pub fn normalize_host_path(path: &str, windows: bool) -> (r: String)
    ensures
        r@ == host_path(path@, windows),
{
    if windows {
        let v = chars_of(path);
        let unc = chars_of("\\\\?\\UNC\\");
        if begins_with(&v, &unc) {
            let rest = slice_chars(&v, unc.len(), v.len());
            assert(rest@ =~= path@.skip(unc@.len() as int));
            let mut s = "\\\\".to_owned();
            push_chars(&mut s, &rest);
            return s;
        }
        let plain = chars_of("\\\\?\\");
        if begins_with(&v, &plain) {
            let rest = slice_chars(&v, plain.len(), v.len());
            assert(rest@ =~= path@.skip(plain@.len() as int));
            return to_text(&rest);
        }
    }
    path.to_owned()
}

/// What resolving a directory on disk gave: its path and whether it is one, or the
/// error.
pub type Canonical = Result<(String, bool), String>;

/// Where `cd` leads to, given what the disk says of the target.
pub open spec fn cd_result(
    current: Seq<char>,
    target: Seq<char>,
    found: Canonical,
    windows: bool,
) -> Result<Seq<char>, Seq<char>> {
    let name = trim(target);
    if name.len() == 0 {
        Ok(current)
    } else {
        match found {
            Err(e) => Err("cd: "@ + name + ": "@ + e@),
            Ok((path, dir)) => if dir {
                Ok(host_path(path@, windows))
            } else {
                Err("cd: "@ + name + ": not a directory"@)
            },
        }
    }
}

/// Whether an executable result is the one specified.
pub open spec fn result_agrees(r: Result<String, String>, s: Result<Seq<char>, Seq<char>>) -> bool {
    match (r, s) {
        (Ok(a), Ok(b)) => a@ == b,
        (Err(a), Err(b)) => a@ == b,
        _ => false,
    }
}

/// The directory that `cd` leads to, given what the disk says of the target.
pub fn resolve_virtual_path(current_path: &str, target: &str, found: Canonical, windows: bool) -> (r:
    Result<String, String>)
    ensures
        result_agrees(r, cd_result(current_path@, target@, found, windows)),
{
    let name = trim_chars(&chars_of(target));
    if name.len() == 0 {
        return Ok(current_path.to_owned());
    }
    let mut text = "cd: ".to_owned();
    push_chars(&mut text, &name);
    match found {
        Err(e) => {
            text.append(": ");
            text.append(e.as_str());
            Err(text)
        },
        Ok((path, dir)) => {
            if dir {
                Ok(normalize_host_path(path.as_str(), windows))
            } else {
                text.append(": not a directory");
                Err(text)
            }
        },
    }
}

/// What a command line needs from outside.
#[derive(Debug, PartialEq, Eq)]
pub enum ShellNeed {
    Nothing,
    /// A directory is to be resolved.
    Resolve(String),
    /// A process is to be started.
    Spawn(String),
}

/// The directory that a trimmed `cd` line names.
pub open spec fn cd_target(line: Seq<char>) -> Option<Seq<char>> {
    if line.len() > 2 && line.take(2) == "cd"@ && (line[2] == ' ' || line[2] == '\t') {
        Some(line.skip(3))
    } else {
        None
    }
}

fn find_cd_target(line: &[char]) -> (r: Option<Vec<char>>)
    ensures
        match r {
            Some(v) => cd_target(line@) == Some(v@),
            None => cd_target(line@) is None,
        },
{
    if line.len() > 2 {
        let head = slice_chars(line, 0, 2);
        assert(head@ =~= line@.take(2));
        if chars_are(&head, "cd") && (line[2] == ' ' || line[2] == '\t') {
            let rest = slice_chars(line, 3, line.len());
            assert(rest@ =~= line@.skip(3));
            return Some(rest);
        }
    }
    None
}

/// Whether a first word is one of the commands besides `cd` that are built in.
pub open spec fn plain_builtin(word: Seq<char>) -> bool {
    word == "pwd"@ || word == "clear"@ || word == "help"@ || word == "exit"@
}

/// What a command line needs from outside before it can be run.
pub fn shell_need(raw_command: &str) -> (n: ShellNeed)
    ensures
        match n {
            ShellNeed::Nothing => {
                let line = trim(raw_command@);
                ||| line.len() == 0
                ||| first_word(line) == "cd"@ && cd_target(line) is None
                ||| plain_builtin(first_word(line))
            },
            ShellNeed::Resolve(t) => first_word(trim(raw_command@)) == "cd"@ && cd_target(
                trim(raw_command@),
            ) == Some(t@),
            ShellNeed::Spawn(c) => {
                let line = trim(raw_command@);
                &&& c@ == line
                &&& line.len() > 0
                &&& first_word(line) != "cd"@
                &&& !plain_builtin(first_word(line))
            },
        },
{
    let line = trim_chars(&chars_of(raw_command));
    if line.len() == 0 {
        return ShellNeed::Nothing;
    }
    let word = first_word_chars(&line);
    if chars_are(&word, "cd") {
        return match find_cd_target(&line) {
            Some(t) => ShellNeed::Resolve(to_text(&t)),
            None => ShellNeed::Nothing,
        };
    }
    if chars_are(&word, "pwd") || chars_are(&word, "clear") || chars_are(&word, "help")
        || chars_are(&word, "exit") {
        return ShellNeed::Nothing;
    }
    ShellNeed::Spawn(to_text(&line))
}

/// The command that a line adds, and the directory after it.
pub open spec fn shell_ran(
    path: Seq<char>,
    raw: Seq<char>,
    resolved: Result<String, String>,
    runner: usize,
    failure: Option<String>,
) -> (Option<EntryModel>, Seq<char>) {
    let line = trim(raw);
    let word = first_word(line);
    let done = |out: Seq<Seq<char>>|
        EntryModel {
            command: line,
            cwd: path,
            output_lines: out,
            status: CommandStatus::Complete,
            kind: kind_of(line),
            runner: None,
        };
    if line.len() == 0 {
        (None, path)
    } else if word == "cd"@ {
        if cd_target(line) is None {
            (Some(done(seq![path])), path)
        } else {
            match resolved {
                Ok(p) => (Some(done(seq![p@])), p@),
                Err(e) => (Some(done(seq![e@])), path),
            }
        }
    } else if plain_builtin(word) {
        (Some(done(builtin_output(line, path))), path)
    } else {
        match failure {
            Some(why) => (Some(done(seq![why@])), path),
            None => (
                Some(
                    EntryModel {
                        status: CommandStatus::Running,
                        runner: Some(runner),
                        ..done(Seq::empty())
                    },
                ),
                path,
            ),
        }
    }
}

/// Runs a command line of the dock: `resolved` is where a `cd` leads, `runner` and
/// `failure` tell how starting a process went. `shell_need` says which of them
/// matters.
pub fn push_shell_command(
    commands: &mut Vec<CommandEntry>,
    current_path: &mut String,
    raw_command: &str,
    resolved: Result<String, String>,
    runner: usize,
    failure: Option<String>,
)
    ensures
        ({
            let (e, path) = shell_ran(old(current_path)@, raw_command@, resolved, runner, failure);
            &&& final(current_path)@ == path
            &&& entries(final(commands)@) == (match e {
                Some(m) => entries(old(commands)@).push(m),
                None => entries(old(commands)@),
            })
        }),
{
    let line = trim_chars(&chars_of(raw_command));
    if line.len() == 0 {
        return;
    }
    let text = to_text(&line);
    proof {
        crate::text::lemma_trim(raw_command@);
    }
    let cwd = current_path.clone();
    let word = first_word_chars(&line);
    let mut out: Vec<String> = Vec::new();
    assert(texts(out@) =~= Seq::empty());
    let e = if chars_are(&word, "cd") {
        match find_cd_target(&line) {
            None => {
                push_line(&mut out, cwd.as_str());
                assert(texts(out@) =~= seq![cwd@]);
            },
            Some(_) => match resolved {
                Ok(p) => {
                    push_line(&mut out, p.as_str());
                    assert(texts(out@) =~= seq![p@]);
                    *current_path = p;
                },
                Err(why) => {
                    push_line(&mut out, why.as_str());
                    assert(texts(out@) =~= seq![why@]);
                },
            },
        }
        CommandEntry::completed(text.as_str(), cwd.as_str(), out)
    } else if chars_are(&word, "pwd") || chars_are(&word, "clear") || chars_are(&word, "help")
        || chars_are(&word, "exit") {
        let lines = CommandEntry::run_builtin(text.as_str(), cwd.as_str());
        CommandEntry::completed(text.as_str(), cwd.as_str(), lines)
    } else {
        CommandEntry::spawn(text.as_str(), cwd.as_str(), runner, failure)
    };
    let ghost m = e@;
    commands.push(e);
    assert(entries(commands@) =~= entries(old(commands)@).push(m));
    assert(m =~= shell_ran(old(current_path)@, raw_command@, resolved, runner, failure).0->0);
}

// ── Scrolling a terminal ─────────────────────────────────────────────────────

/// Whether the content of a window is wider than the window.
pub open spec fn has_hscroll(w: Window) -> bool {
    w.content_w > w.inner_w()
}

/// How far a terminal without a session can be scrolled to the right.
pub open spec fn scroll_limit(t: TermStateModel, inner: int) -> u16 {
    let width = content_width(t.path, t.commands);
    if width > inner {
        ((width - inner) % 0x10000) as u16
    } else {
        0
    }
}

/// A click on the path row of a terminal without a session: its left half scrolls
/// back, its right half on.
pub open spec fn scrolled_h(a: AppModel, x: u16, y: u16) -> (AppModel, bool) {
    match (a.terminal, a.window()) {
        (Some(t), Some(w)) => {
            let row = w.position_y + if has_hscroll(w) {
                w.height - 4
            } else {
                w.height - 3
            };
            let lowest = w.height < (if has_hscroll(w) {
                4int
            } else {
                3
            });
            let row = if lowest {
                w.position_y as int
            } else {
                row
            };
            let limit = scroll_limit(t, w.inner_w());
            if t.session is Some || y != row || x <= w.position_x || x >= w.position_x + w.width - 1
                || limit == 0 {
                (a, false)
            } else {
                let scroll_x = if x < w.position_x + 1 + w.inner_w() / 2 {
                    if w.scroll_x > 0 {
                        w.scroll_x - 1
                    } else {
                        0
                    }
                } else if w.scroll_x < limit {
                    w.scroll_x + 1
                } else {
                    limit as int
                };
                (a.with_window(Window { scroll_x: scroll_x as u16, ..w }), true)
            }
        },
        _ => (a, false),
    }
}

pub fn interact_terminal_horizontal_scroll(app: &mut Application, x: u16, y: u16) -> (taken: bool)
    ensures
        (final(app)@, taken) == scrolled_h(old(app)@, x, y),
{
    let w: Window = match app.window() {
        Some(w) => *w,
        None => {
            return false;
        },
    };
    let limit: u16 = match &app.terminal {
        Some(t) => {
            if t.shell_session.is_some() {
                return false;
            }
            let width: usize = terminal_content_width(t.path.as_str(), &t.commands);
            let over: usize = width.saturating_sub(w.visible_w());
            (over % 0x10000) as u16
        },
        None => {
            return false;
        },
    };
    let below: u16 = if w.content_w as usize > w.visible_w() {
        4
    } else {
        3
    };
    let row: u32 = w.position_y as u32 + w.height.saturating_sub(below) as u32;
    if y as u32 != row || x <= w.position_x || x as u32 + 1 >= w.position_x as u32 + w.width as u32
        || limit == 0 {
        return false;
    }
    let mid: u32 = w.position_x as u32 + 1 + w.visible_w() as u32 / 2;
    let mut v = w;
    if (x as u32) < mid {
        v.scroll_x = w.scroll_x.saturating_sub(1);
    } else if w.scroll_x < limit {
        v.scroll_x = w.scroll_x + 1;
    } else {
        v.scroll_x = limit;
    }
    app.set_window(v);
    true
}

/// The number of lines that a terminal with a session can show.
pub open spec fn line_count(t: TermStateModel) -> int {
    match t.emulator {
        Some(m) => m.total_lines(),
        None => t.shell_lines.len() as int,
    }
}

/// A click on the scrollbar of a terminal with a session: it scrolls to the place
/// that was clicked.
pub open spec fn scrolled_v(a: AppModel, x: u16, y: u16) -> (AppModel, bool) {
    match (a.terminal, a.window()) {
        (Some(t), Some(w)) => {
            let area = w.height - (if t.emulator is Some {
                2int
            } else {
                4
            });
            let top = w.position_y + 1;
            let bar = sat16(w.position_x + w.width);
            let bar: int = if bar >= 2 {
                bar - 2
            } else {
                0
            };
            if t.session is None || w.height < 5 || x != bar || y < top || y >= top + area {
                (a, false)
            } else {
                let most = line_count(t) - area;
                let down = (y - top + 1) * most / area;
                let target: int = if most <= 0 {
                    0
                } else if down > most {
                    0
                } else {
                    most - down
                };
                (
                    AppModel {
                        terminal: Some(TermStateModel { panel_scroll: target as usize, ..t }),
                        ..a
                    },
                    t.panel_scroll != target,
                )
            }
        },
        _ => (a, false),
    }
}

pub fn interact_terminal_vertical_scroll(app: &mut Application, x: u16, y: u16) -> (taken: bool)
    requires
        old(app).wf(),
    ensures
        (final(app)@, taken) == scrolled_v(old(app)@, x, y),
        final(app).wf(),
{
    let w: Window = match app.window() {
        Some(w) => *w,
        None => {
            return false;
        },
    };
    match app.terminal.take() {
        None => false,
        Some(state) => {
            let mut t = state;
            let ghost before = t@;
            let mut changed = false;
            if t.shell_session.is_some() && w.height >= 5 {
                let (area, total): (u16, usize) = match &t.emulator {
                    Some(m) => (w.height - 2, m.total_lines()),
                    None => (w.height - 4, t.shell_lines.len()),
                };
                let bar: u16 = w.position_x.saturating_add(w.width).saturating_sub(2);
                let top: u32 = w.position_y as u32 + 1;
                if x == bar && y as u32 >= top && (y as u32) < top + area as u32 {
                    let most: usize = total.saturating_sub(area as usize);
                    let i: u128 = (y as u32 - top + 1) as u128;
                    proof {
                        let (p, q) = (i as int, most as int);
                        assert(0 <= p * q <= 0x10000 * 0xffff_ffff_ffff_ffff) by (nonlinear_arith)
                            requires
                                0 <= p <= 0x10000,
                                0 <= q <= 0xffff_ffff_ffff_ffff,
                        ;
                    }
                    let down: u128 = i * most as u128 / area as u128;
                    let target: usize = if down > most as u128 {
                        0
                    } else {
                        most - down as usize
                    };
                    changed = t.panel_scroll != target;
                    t.panel_scroll = target;
                    proof {
                        if total <= area {
                            assert(most == 0);
                            assert(i * 0 == 0);
                            assert(0int / (area as int) == 0) by (nonlinear_arith)
                                requires
                                    area > 0,
                            ;
                        }
                    }
                    assert(t@ =~= TermStateModel { panel_scroll: target, ..before });
                }
            }
            app.terminal = Some(t);
            assert(app@ =~= scrolled_v(old(app)@, x, y).0);
            changed
        },
    }
}

/// An application with its window's scrolling and its grid fitted to its content
/// and its window.
pub open spec fn synced(a: AppModel) -> AppModel {
    match a.window() {
        None => a,
        Some(w) => match a.terminal {
            Some(t) => if t.emulator is Some {
                AppModel {
                    terminal: Some(
                        t.grid_sized(
                            max16(w.inner_w() as u16, 2),
                            max16(w.inner_h() as u16, 2),
                        ),
                    ),
                    ..a.with_window(Window { content_w: 0, content_h: 0, scroll_x: 0, ..w })
                }
            } else {
                let width = content_width(t.path, t.commands);
                a.with_window(
                    Window {
                        content_w: sat16(width as int),
                        content_h: 0,
                        scroll_x: min16(w.scroll_x, scroll_limit(t, w.inner_w())),
                        ..w
                    },
                )
            },
            None => a.with_window(Window { content_w: 0, content_h: 0, scroll_x: 0, ..w }),
        },
    }
}

/// The size that the session of an application has to be told: that of its grid.
pub open spec fn told_size(a: AppModel) -> Option<(usize, u16, u16)> {
    match (a.window(), a.terminal) {
        (Some(w), Some(t)) => match (t.emulator, t.session) {
            (Some(_), Some(s)) => Some(
                (s.id, max16(w.inner_w() as u16, 2), max16(w.inner_h() as u16, 2)),
            ),
            _ => None,
        },
        _ => None,
    }
}

/// The sizes that the sessions have to be told.
pub open spec fn told_sizes(a: Seq<AppModel>) -> Seq<(usize, u16, u16)>
    decreases a.len(),
{
    if a.len() == 0 {
        Seq::empty()
    } else {
        let front = told_sizes(a.drop_last());
        match told_size(a.last()) {
            Some(t) => front.push(t),
            None => front,
        }
    }
}

pub open spec fn all_wf(a: Seq<AppModel>) -> bool {
    forall|i: int| 0 <= i < a.len() ==> (#[trigger] a[i]).wf()
}

fn sync_window(app: &mut Application) -> (told: Option<(usize, u16, u16)>)
    requires
        old(app).wf(),
    ensures
        final(app)@ == synced(old(app)@),
        final(app).wf(),
        told == told_size(old(app)@),
{
    let w: Window = match app.window() {
        Some(w) => *w,
        None => {
            return None;
        },
    };
    let mut told: Option<(usize, u16, u16)> = None;
    let mut v = w;
    v.content_w = 0;
    v.content_h = 0;
    v.scroll_x = 0;
    match app.terminal.take() {
        None => {},
        Some(state) => {
            let mut t = state;
            if t.emulator.is_some() {
                let cols: u16 = max16(w.width.saturating_sub(2), 2);
                let rows: u16 = max16(w.height.saturating_sub(2), 2);
                let _ = t.set_grid_size(cols, rows);
                match t.shell_session {
                    Some(s) => {
                        told = Some((s.id, cols, rows));
                    },
                    None => {},
                }
            } else {
                let width: usize = terminal_content_width(t.path.as_str(), &t.commands);
                let over: usize = width.saturating_sub(w.visible_w());
                let limit: u16 = (over % 0x10000) as u16;
                v.content_w = if width > 0xffff {
                    0xffff
                } else {
                    width as u16
                };
                v.scroll_x = min16(w.scroll_x, limit);
            }
            app.terminal = Some(t);
        },
    }
    app.set_window(v);
    assert(app@ =~= synced(old(app)@));
    told
}

/// Fits the scrolling of the windows and the grids of the terminals to their
/// content and size. Gives the sizes that the sessions have to be told.
pub fn sync_terminal_window_metrics(applications: &mut Vec<Application>) -> (told: Vec<
    (usize, u16, u16),
>)
    requires
        all_wf(apps(old(applications)@)),
    ensures
        apps(final(applications)@) == apps(old(applications)@).map_values(|a: AppModel| synced(a)),
        all_wf(apps(final(applications)@)),
        told@ == told_sizes(apps(old(applications)@)),
{
    let ghost given = apps(applications@);
    let mut told: Vec<(usize, u16, u16)> = Vec::new();
    let mut i: usize = 0;
    assert(given.take(0) =~= Seq::empty());
    while i < applications.len()
        invariant
            i <= applications@.len(),
            applications@.len() == given.len(),
            all_wf(given),
            forall|k: int| 0 <= k < i ==> (#[trigger] applications@[k])@ == synced(given[k]),
            forall|k: int| 0 <= k < i ==> (#[trigger] applications@[k]).wf(),
            forall|k: int| i <= k < given.len() ==> (#[trigger] applications@[k])@ == given[k],
            told@ == told_sizes(given.take(i as int)),
        decreases given.len() - i,
    {
        assert(given.take(i + 1).drop_last() =~= given.take(i as int));
        assert(given.take(i + 1).last() == given[i as int]);
        assert(given[i as int].wf());
        let one = sync_window(&mut applications[i]);
        match one {
            Some(t) => told.push(t),
            None => {},
        }
        i = i + 1;
    }
    assert(given.take(i as int) =~= given);
    assert(apps(applications@) =~= given.map_values(|a: AppModel| synced(a)));
    assert forall|k: int| 0 <= k < applications@.len() implies (#[trigger] apps(
        applications@,
    )[k]).wf() by {
        assert(applications@[k].wf());
    }
    told
}

// ── Which window ─────────────────────────────────────────────────────────────

/// Whether a window covers a cell.
pub open spec fn covers(w: Window, x: u16, y: u16) -> bool {
    &&& w.position_x <= x < w.position_x + w.width
    &&& w.position_y <= y < w.position_y + w.height
}

pub fn covers_cell(w: &Window, x: u16, y: u16) -> (r: bool)
    ensures
        r == covers(*w, x, y),
{
    w.position_x <= x && (x as u32) < w.position_x as u32 + w.width as u32 && w.position_y <= y && (
    y as u32) < w.position_y as u32 + w.height as u32
}

/// Whether an application has a window on a desktop, and there at a cell where one
/// is given.
pub open spec fn shows(a: AppModel, desktop: usize, at: Option<(u16, u16)>) -> bool {
    a.desktop == desktop && match a.window() {
        Some(w) => match at {
            Some((x, y)) => covers(w, x, y),
            None => true,
        },
        None => false,
    }
}

pub open spec fn layer_of(a: AppModel) -> u16 {
    match a.window() {
        Some(w) => w.layer,
        None => 0,
    }
}

/// The last of the windows on the highest layer, among the first `n`.
pub open spec fn front_of(
    a: Seq<AppModel>,
    desktop: usize,
    at: Option<(u16, u16)>,
    n: int,
) -> Option<usize>
    decreases n,
{
    if n <= 0 {
        None
    } else {
        let best = front_of(a, desktop, at, n - 1);
        if shows(a[n - 1], desktop, at) && match best {
            Some(b) => layer_of(a[b as int]) <= layer_of(a[n - 1]),
            None => true,
        } {
            Some((n - 1) as usize)
        } else {
            best
        }
    }
}

/// The window in front of all others on a desktop, or at a cell of it.
pub open spec fn front(a: Seq<AppModel>, desktop: usize, at: Option<(u16, u16)>) -> Option<usize> {
    front_of(a, desktop, at, a.len() as int)
}

/// The window in front is shown, and no other is above it: of those on its layer it
/// is the last.
pub proof fn lemma_front(a: Seq<AppModel>, desktop: usize, at: Option<(u16, u16)>, n: int)
    requires
        0 <= n <= a.len() <= usize::MAX,
    ensures
        match front_of(a, desktop, at, n) {
            Some(f) => {
                &&& f < n
                &&& shows(a[f as int], desktop, at)
                &&& forall|i: int|
                    0 <= i < n && shows(#[trigger] a[i], desktop, at) ==> layer_of(a[i])
                        < layer_of(a[f as int]) || layer_of(a[i]) == layer_of(a[f as int]) && i <= f
            },
            None => forall|i: int| 0 <= i < n ==> !shows(#[trigger] a[i], desktop, at),
        },
    decreases n,
{
    if n > 0 {
        lemma_front(a, desktop, at, n - 1);
    }
}

fn find_front(applications: &Vec<Application>, desktop: usize, at: Option<(u16, u16)>) -> (r: Option<
    usize,
>)
    ensures
        r == front(apps(applications@), desktop, at),
        r matches Some(i) ==> i < applications@.len() && shows(
            applications@[i as int]@,
            desktop,
            at,
        ),
{
    let ghost a = apps(applications@);
    let mut best: Option<usize> = None;
    let mut layer: u16 = 0;
    let mut i: usize = 0;
    while i < applications.len()
        invariant
            i <= applications@.len(),
            a == apps(applications@),
            best == front_of(a, desktop, at, i as int),
            best matches Some(b) ==> b < i && layer == layer_of(a[b as int]) && shows(
                applications@[b as int]@,
                desktop,
                at,
            ),
        decreases applications@.len() - i,
    {
        let app = &applications[i];
        assert(a[i as int] == app@);
        if app.on_desktop(desktop) {
            match app.window() {
                Some(w) => {
                    let here = match at {
                        Some((x, y)) => covers_cell(w, x, y),
                        None => true,
                    };
                    if here && (best.is_none() || layer <= w.layer) {
                        best = Some(i);
                        layer = w.layer;
                    }
                },
                None => {},
            }
        }
        i = i + 1;
    }
    best
}

/// The window in front at a cell.
pub fn topmost_window_at(applications: &Vec<Application>, current_desktop: usize, x: u16, y: u16) -> (r:
    Option<usize>)
    ensures
        r == front(apps(applications@), current_desktop, Some((x, y))),
        r matches Some(i) ==> i < applications@.len() && shows(
            applications@[i as int]@,
            current_desktop,
            Some((x, y)),
        ),
{
    find_front(applications, current_desktop, Some((x, y)))
}

/// The minimised applications of a desktop.
pub open spec fn minimized(a: Seq<AppModel>, desktop: usize) -> Seq<usize>
    decreases a.len(),
{
    if a.len() == 0 {
        Seq::empty()
    } else {
        let front = minimized(a.drop_last(), desktop);
        if a.last().desktop == desktop && a.last().display is Minimized {
            front.push((a.len() - 1) as usize)
        } else {
            front
        }
    }
}

pub fn minimized_list(applications: &Vec<Application>, desktop: usize) -> (v: Vec<usize>)
    ensures
        v@ == minimized(apps(applications@), desktop),
        forall|k: int| 0 <= k < v@.len() ==> (#[trigger] v@[k]) < applications@.len(),
{
    let ghost a = apps(applications@);
    let mut v: Vec<usize> = Vec::new();
    let mut i: usize = 0;
    assert(a.take(0) =~= Seq::empty());
    while i < applications.len()
        invariant
            i <= applications@.len(),
            a == apps(applications@),
            v@ == minimized(a.take(i as int), desktop),
            forall|k: int| 0 <= k < v@.len() ==> (#[trigger] v@[k]) < i,
        decreases applications@.len() - i,
    {
        assert(a.take(i + 1).drop_last() =~= a.take(i as int));
        assert(a.take(i + 1).last() == applications@[i as int]@);
        if applications[i].on_desktop(desktop) && applications[i].is_minimized() {
            v.push(i);
        }
        i = i + 1;
    }
    assert(a.take(i as int) =~= a);
    v
}

/// The rows there are for tabs.
pub open spec fn tab_area(screen_h: u16) -> int {
    if screen_h >= 4 {
        screen_h - 4
    } else {
        0
    }
}

/// How high a tab is: less where there are many.
pub open spec fn tab_height(count: nat, screen_h: u16) -> int {
    if count * 8 <= tab_area(screen_h) {
        8
    } else {
        6
    }
}

/// How many tabs are shown at a time.
pub open spec fn tab_room(count: nat, screen_h: u16) -> int {
    if tab_area(screen_h) == 0 {
        0
    } else {
        tab_area(screen_h) / tab_height(count, screen_h)
    }
}

/// The tabs on the screen: the application, the row and the height of each.
pub open spec fn tabs(a: Seq<AppModel>, desktop: usize, screen_h: u16, scroll: usize) -> Seq<
    (usize, u16, u16),
> {
    let list = minimized(a, desktop);
    let height = tab_height(list.len(), screen_h);
    let room = tab_room(list.len(), screen_h);
    let left = if scroll < list.len() {
        list.len() - scroll
    } else {
        0
    };
    Seq::new(
        (if left < room {
            left
        } else {
            room
        }) as nat,
        |i: int| (list[scroll + i], (1 + i * height) as u16, height as u16),
    )
}

fn tab_fit(count: usize, screen_h: u16) -> (r: (u16, usize))
    ensures
        r.0 == tab_height(count as nat, screen_h),
        r.1 == tab_room(count as nat, screen_h),
        r.1 <= 0xffff,
        r.1 * r.0 <= tab_area(screen_h),
{
    let area: u16 = screen_h.saturating_sub(4);
    let height: u16 = if count <= (area / 8) as usize {
        8
    } else {
        6
    };
    (height, (area / height) as usize)
}

/// The tabs on the screen: the application, the row and the height of each.
pub fn tab_layout(
    applications: &Vec<Application>,
    current_desktop: usize,
    screen_h: u16,
    scroll: usize,
) -> (v: Vec<(usize, u16, u16)>)
    ensures
        v@ == tabs(apps(applications@), current_desktop, screen_h, scroll),
        forall|k: int|
            0 <= k < v@.len() ==> (#[trigger] v@[k]).0 < applications@.len() && v@[k].1 + v@[k].2
                <= 0xffff && v@[k].2 >= 6,
{
    let list = minimized_list(applications, current_desktop);
    let total: usize = list.len();
    let (height, room) = tab_fit(total, screen_h);
    let left: usize = total.saturating_sub(scroll);
    let n: usize = min_len(left, room);
    let mut v: Vec<(usize, u16, u16)> = Vec::new();
    while v.len() < n
        invariant
            total == list@.len(),
            v@.len() <= n <= room,
            n == 0 || scroll + n <= list@.len(),
            room * height <= tab_area(screen_h),
            height == 6 || height == 8,
            forall|k: int| 0 <= k < list@.len() ==> (#[trigger] list@[k]) < applications@.len(),
            forall|k: int|
                0 <= k < v@.len() ==> (#[trigger] v@[k]) == (
                    list@[scroll + k],
                    (1 + k * height) as u16,
                    height,
                ) && v@[k].1 + height <= 0xffff,
        decreases n - v@.len(),
    {
        let i: usize = v.len();
        proof {
            assert(i * height + height <= room * height) by (nonlinear_arith)
                requires
                    i + 1 <= room,
                    height >= 0,
            ;
        }
        v.push((list[scroll + i], 1 + i as u16 * height, height));
    }
    assert(v@ =~= tabs(apps(applications@), current_desktop, screen_h, scroll));
    v
}

/// How far the tabs can be scrolled.
pub open spec fn tab_limit(a: Seq<AppModel>, desktop: usize, screen_h: u16) -> usize {
    let count = minimized(a, desktop).len();
    let room = tab_room(count, screen_h);
    if count == 0 || tab_area(screen_h) == 0 || count <= room {
        0
    } else {
        (count - room) as usize
    }
}

pub fn max_tab_scroll(applications: &Vec<Application>, current_desktop: usize, screen_h: u16) -> (n:
    usize)
    ensures
        n == tab_limit(apps(applications@), current_desktop, screen_h),
{
    let list = minimized_list(applications, current_desktop);
    let count: usize = list.len();
    if count == 0 || screen_h <= 4 {
        return 0;
    }
    let (_, room) = tab_fit(count, screen_h);
    count.saturating_sub(room)
}

/// Every tab lies on the screen, above the status bar and below the one before it,
/// and scrolling as far as one can shows the last of them.
pub proof fn lemma_tabs_fit(a: Seq<AppModel>, desktop: usize, screen_h: u16, scroll: usize)
    ensures
        ({
            let t = tabs(a, desktop, screen_h, scroll);
            &&& forall|i: int|
                0 <= i < t.len() ==> 1 <= (#[trigger] t[i]).1 && t[i].1 + t[i].2 <= screen_h - 3
            &&& forall|i: int, j: int|
                0 <= i < j < t.len() ==> (#[trigger] t[i]).1 + t[i].2 <= (#[trigger] t[j]).1
        }),
        ({
            let last = tabs(a, desktop, screen_h, tab_limit(a, desktop, screen_h));
            let list = minimized(a, desktop);
            list.len() <= usize::MAX && list.len() > 0 && tab_room(list.len(), screen_h) > 0
                ==> last.len() > 0 && last.last().0 == list.last()
        }),
{
    let list = minimized(a, desktop);
    let height = tab_height(list.len(), screen_h);
    let room = tab_room(list.len(), screen_h);
    let t = tabs(a, desktop, screen_h, scroll);
    assert forall|i: int| 0 <= i < t.len() implies 1 <= (#[trigger] t[i]).1 && t[i].1 + t[i].2
        <= screen_h - 3 by {
        assert(i * height + height <= room * height) by (nonlinear_arith)
            requires
                i + 1 <= room,
                height >= 0,
        ;
        assert(0 <= i * height) by (nonlinear_arith)
            requires
                0 <= i,
                height >= 0,
        ;
    }
    assert forall|i: int, j: int| 0 <= i < j < t.len() implies (#[trigger] t[i]).1 + t[i].2 <= (
    #[trigger] t[j]).1 by {
        assert(i * height + height <= j * height) by (nonlinear_arith)
            requires
                i + 1 <= j,
                height >= 0,
        ;
        assert(j * height + height <= room * height) by (nonlinear_arith)
            requires
                j + 1 <= room,
                height >= 0,
        ;
        assert(0 <= i * height) by (nonlinear_arith)
            requires
                0 <= i,
                height >= 0,
        ;
    }
}

/// The application that commands for the active window are about: that of the
/// mode, or the one in front.
pub open spec fn active(a: Seq<AppModel>, mode: ModeModel, desktop: usize) -> Option<usize> {
    match mode {
        ModeModel::Normal => front(a, desktop, None),
        ModeModel::Typing => None,
        _ => {
            let i = mode.target()->0;
            if i < a.len() && shows(a[i as int], desktop, None) {
                Some(i)
            } else {
                None
            }
        },
    }
}

pub fn active_window_idx(applications: &Vec<Application>, mode: &Mode, current_desktop: usize) -> (r:
    Option<usize>)
    ensures
        r == active(apps(applications@), mode@, current_desktop),
        r matches Some(i) ==> i < applications@.len() && shows(
            applications@[i as int]@,
            current_desktop,
            None,
        ),
{
    let i: usize = match mode {
        Mode::Normal => {
            return find_front(applications, current_desktop, None);
        },
        Mode::Typing => {
            return None;
        },
        Mode::Moving { app_idx, .. } => *app_idx,
        Mode::Resizing { app_idx, .. } => *app_idx,
        Mode::TerminalFocus { app_idx } => *app_idx,
    };
    if i < applications.len() && applications[i].on_desktop(current_desktop)
        && applications[i].window().is_some() {
        assert(apps(applications@)[i as int] == applications@[i as int]@);
        Some(i)
    } else {
        proof {
            if i < applications@.len() {
                assert(apps(applications@)[i as int] == applications@[i as int]@);
            }
        }
        None
    }
}

// ── Changing windows ─────────────────────────────────────────────────────────

/// The place of the tabs, no further than they can be scrolled.
pub open spec fn tab_place(a: Seq<AppModel>, desktop: usize, screen_h: u16, scroll: usize) -> usize {
    min_len(scroll, tab_limit(a, desktop, screen_h))
}

fn clamp_tabs(applications: &Vec<Application>, desktop: usize, screen_h: u16, scroll: usize) -> (r:
    usize)
    ensures
        r == tab_place(apps(applications@), desktop, screen_h, scroll),
{
    min_len(scroll, max_tab_scroll(applications, desktop, screen_h))
}

/// The highest layer of the windows, among the first `n`.
pub open spec fn top_layer(a: Seq<AppModel>, n: int) -> u16
    decreases n,
{
    if n <= 0 {
        0
    } else {
        max16(top_layer(a, n - 1), layer_of(a[n - 1]))
    }
}

fn max_layer(applications: &Vec<Application>) -> (r: u16)
    ensures
        r == top_layer(apps(applications@), applications@.len() as int),
{
    let ghost a = apps(applications@);
    let mut r: u16 = 0;
    let mut i: usize = 0;
    while i < applications.len()
        invariant
            i <= applications@.len(),
            a == apps(applications@),
            r == top_layer(a, i as int),
        decreases applications@.len() - i,
    {
        assert(a[i as int] == applications@[i as int]@);
        match applications[i].window() {
            Some(w) => {
                r = max16(r, w.layer);
            },
            None => {},
        }
        i = i + 1;
    }
    r
}

/// An application with its window on another layer.
pub open spec fn on_layer(a: AppModel, layer: u16) -> AppModel {
    match a.window() {
        Some(w) => a.with_window(Window { layer, ..w }),
        None => a,
    }
}

/// The applications with one raised above all others: it goes to the end of the
/// list and to a layer of its own.
pub open spec fn raised(a: Seq<AppModel>, i: int) -> Seq<AppModel> {
    let top = top_layer(a, a.len() as int);
    a.remove(i).push(
        on_layer(
            a[i],
            if top < 0xffff {
                (top + 1) as u16
            } else {
                top
            },
        ),
    )
}

proof fn lemma_top_layer(a: Seq<AppModel>, n: int, i: int)
    requires
        0 <= i < n,
    ensures
        layer_of(a[i]) <= top_layer(a, n),
    decreases n,
{
    if i < n - 1 {
        lemma_top_layer(a, n - 1, i);
    }
}

/// A window that is raised is in front of all others, of its desktop and at each
/// of its cells.
pub proof fn lemma_raised_is_front(
    a: Seq<AppModel>,
    i: int,
    desktop: usize,
    at: Option<(u16, u16)>,
)
    requires
        0 <= i < a.len() <= usize::MAX,
        shows(a[i], desktop, at),
    ensures
        front(raised(a, i), desktop, at) == Some((a.len() - 1) as usize),
{
    let b = raised(a, i);
    let n = b.len() as int;
    lemma_front(b, desktop, at, n);
    assert forall|k: int| 0 <= k < n - 1 implies layer_of(#[trigger] b[k]) <= layer_of(b[n - 1]) by {
        let from = if k < i {
            k
        } else {
            k + 1
        };
        assert(b[k] == a[from]);
        lemma_top_layer(a, a.len() as int, from);
    }
    assert(shows(b[n - 1], desktop, at));
}

proof fn lemma_raised_wf(a: Seq<AppModel>, i: int)
    requires
        0 <= i < a.len(),
        all_wf(a),
    ensures
        all_wf(raised(a, i)),
{
    let b = raised(a, i);
    assert forall|k: int| 0 <= k < b.len() implies (#[trigger] b[k]).wf() by {
        if k < b.len() - 1 {
            let from = if k < i {
                k
            } else {
                k + 1
            };
            assert(b[k] == a[from]);
            assert(a[from].wf());
        } else {
            assert(a[i].wf());
        }
    }
}

proof fn lemma_removed_wf(a: Seq<AppModel>, i: int)
    requires
        0 <= i < a.len(),
        all_wf(a),
    ensures
        all_wf(a.remove(i)),
{
    let b = a.remove(i);
    assert forall|k: int| 0 <= k < b.len() implies (#[trigger] b[k]).wf() by {
        let from = if k < i {
            k
        } else {
            k + 1
        };
        assert(b[k] == a[from]);
        assert(a[from].wf());
    }
}

/// Takes an application out of the list.
pub fn remove_app(applications: &mut Vec<Application>, i: usize) -> (a: Application)
    requires
        i < old(applications)@.len(),
    ensures
        apps(final(applications)@) == apps(old(applications)@).remove(i as int),
        a@ == apps(old(applications)@)[i as int],
        all_wf(apps(old(applications)@)) ==> all_wf(apps(final(applications)@)) && a.wf(),
{
    let ghost given = apps(applications@);
    let a = applications.remove(i);
    assert(apps(applications@) =~= given.remove(i as int));
    proof {
        if all_wf(given) {
            lemma_removed_wf(given, i as int);
            assert(given[i as int].wf());
        }
    }
    a
}

/// Puts an application at the end of the list.
pub fn push_app(applications: &mut Vec<Application>, a: Application)
    ensures
        apps(final(applications)@) == apps(old(applications)@).push(a@),
        all_wf(apps(old(applications)@)) && a.wf() ==> all_wf(apps(final(applications)@)),
{
    let ghost given = apps(applications@);
    applications.push(a);
    assert(apps(applications@) =~= given.push(a@));
    proof {
        if all_wf(given) && a.wf() {
            let b = apps(applications@);
            assert forall|k: int| 0 <= k < b.len() implies (#[trigger] b[k]).wf() by {
                if k < given.len() {
                    assert(given[k].wf());
                }
            }
        }
    }
}

/// Shows an application of the list in another way.
pub fn display_app(applications: &mut Vec<Application>, i: usize, display: DisplayMode)
    requires
        i < old(applications)@.len(),
    ensures
        apps(final(applications)@) == apps(old(applications)@).update(
            i as int,
            apps(old(applications)@)[i as int].shown_as(display),
        ),
        all_wf(apps(old(applications)@)) ==> all_wf(apps(final(applications)@)),
{
    let ghost given = apps(applications@);
    let ghost one = applications@[i as int]@;
    applications[i].display = display;
    assert(applications@[i as int]@ =~= one.shown_as(display));
    assert(apps(applications@) =~= given.update(i as int, one.shown_as(display)));
    proof {
        if all_wf(given) {
            let b = apps(applications@);
            assert forall|k: int| 0 <= k < b.len() implies (#[trigger] b[k]).wf() by {
                assert(given[k].wf());
            }
        }
    }
}

/// Raises a window above all others. Gives its new place in the list.
pub fn bring_window_to_front(applications: &mut Vec<Application>, idx: usize) -> (r: usize)
    ensures
        idx >= old(applications)@.len() ==> r == idx && apps(final(applications)@) == apps(
            old(applications)@,
        ),
        idx < old(applications)@.len() ==> r == old(applications)@.len() - 1 && apps(
            final(applications)@,
        ) == raised(apps(old(applications)@), idx as int),
        all_wf(apps(old(applications)@)) ==> all_wf(apps(final(applications)@)),
{
    let n: usize = applications.len();
    if idx >= n {
        return idx;
    }
    let ghost given = apps(applications@);
    let layer: u16 = max_layer(applications).saturating_add(1);
    let mut app = remove_app(applications, idx);
    match app.window() {
        Some(w) => {
            let mut v = *w;
            v.layer = layer;
            app.set_window(v);
        },
        None => {},
    }
    push_app(applications, app);
    assert(apps(applications@) =~= raised(given, idx as int));
    proof {
        if all_wf(given) {
            lemma_raised_wf(given, idx as int);
        }
    }
    n - 1
}

/// What closing the active window does: nothing where it can not be closed.
pub open spec fn closes(a: Seq<AppModel>, mode: ModeModel, desktop: usize) -> Option<usize> {
    match active(a, mode, desktop) {
        Some(i) => if a[i as int].window()->0.closable {
            Some(i)
        } else {
            None
        },
        None => None,
    }
}

pub fn close_active_window(
    applications: &mut Vec<Application>,
    mode: &mut Mode,
    current_desktop: usize,
    screen_h: u16,
    tab_scroll: &mut usize,
) -> (closed: bool)
    ensures
        match closes(apps(old(applications)@), old(mode)@, current_desktop) {
            Some(i) => {
                &&& closed
                &&& apps(final(applications)@) == apps(old(applications)@).remove(i as int)
                &&& final(mode)@ == ModeModel::Normal
                &&& *final(tab_scroll) == tab_place(
                    apps(final(applications)@),
                    current_desktop,
                    screen_h,
                    *old(tab_scroll),
                )
            },
            None => {
                &&& !closed
                &&& apps(final(applications)@) == apps(old(applications)@)
                &&& final(mode)@ == old(mode)@
                &&& *final(tab_scroll) == *old(tab_scroll)
            },
        },
        all_wf(apps(old(applications)@)) ==> all_wf(apps(final(applications)@)),
{
    match active_window_idx(applications, mode, current_desktop) {
        None => false,
        Some(i) => {
            assert(apps(applications@)[i as int] == applications@[i as int]@);
            let can_close = match applications[i].window() {
                Some(w) => w.closable,
                None => false,
            };
            if !can_close {
                return false;
            }
            let _ = remove_app(applications, i);
            *tab_scroll = clamp_tabs(applications, current_desktop, screen_h, *tab_scroll);
            *mode = Mode::Normal;
            true
        },
    }
}

// ── New terminals ────────────────────────────────────────────────────────────

/// The number after `id`.
pub open spec fn next_id(id: usize) -> usize {
    if id < usize::MAX {
        (id + 1) as usize
    } else {
        id
    }
}

/// The window of a new terminal: in the middle, half as wide and two thirds as high
/// as the screen.
pub open spec fn terminal_place(screen_w: u16, screen_h: u16) -> Window {
    let area = tab_area(screen_h);
    let most = if screen_w >= 6 {
        screen_w - 6
    } else {
        0
    };
    let w: int = if screen_w / 2 < 30 {
        30
    } else {
        (screen_w / 2) as int
    };
    let w = if w < most {
        w
    } else {
        most
    };
    let h: int = if area * 2 / 3 < 8 {
        8
    } else {
        area * 2 / 3
    };
    let h = if h < area {
        h
    } else {
        area
    };
    Window::plain(
        ((screen_w - w) / 2) as u16,
        (1 + (area - h) / 2) as u16,
        w as u16,
        h as u16,
        0,
    )
}

fn centered_terminal(screen_w: u16, screen_h: u16) -> (w: Window)
    ensures
        w == terminal_place(screen_w, screen_h),
{
    let area: u16 = screen_h.saturating_sub(4);
    let w: u16 = min16(max16(screen_w / 2, 30), screen_w.saturating_sub(6));
    let h: u16 = min16(max16((area as u32 * 2 / 3) as u16, 8), area);
    Window::new((screen_w - w) / 2, 1 + (area - h) / 2, w, h, 0)
}

/// The title of a terminal.
pub open spec fn terminal_title(id: usize) -> Seq<char> {
    "Terminal "@ + dec(id as nat)
}

/// The title of a program's window: its name.
pub open spec fn program_title(program: Seq<char>, id: usize) -> Seq<char> {
    if trim(program).len() == 0 {
        "App "@ + dec(id as nat)
    } else {
        first_word(program)
    }
}

/// The applications with a new one, in front of all others.
pub open spec fn opened(a: Seq<AppModel>, one: AppModel) -> Seq<AppModel> {
    raised(a.push(one), a.len() as int)
}

/// A new application is in front of all others of its desktop.
pub proof fn lemma_opened_is_front(a: Seq<AppModel>, one: AppModel)
    requires
        a.len() < usize::MAX,
        one.window() is Some,
    ensures
        front(opened(a, one), one.desktop, None) == Some(a.len() as usize),
        opened(a, one).len() == a.len() + 1,
{
    lemma_raised_is_front(a.push(one), a.len() as int, one.desktop, None);
}

fn open_app(applications: &mut Vec<Application>, a: Application) -> (r: usize)
    ensures
        apps(final(applications)@) == opened(apps(old(applications)@), a@),
        r == old(applications)@.len(),
        all_wf(apps(old(applications)@)) && a.wf() ==> all_wf(apps(final(applications)@)),
{
    let n: usize = applications.len();
    push_app(applications, a);
    assert(apps(applications@).len() == applications@.len());
    bring_window_to_front(applications, n)
}

/// Opens a terminal window. `session` is the shell that was started for it. Gives
/// its place in the list.
pub fn spawn_terminal_window(
    applications: &mut Vec<Application>,
    next_terminal_id: &mut usize,
    current_desktop: usize,
    screen_w: u16,
    screen_h: u16,
    path: &str,
    commands: Vec<CommandEntry>,
    session: Option<ShellSession>,
) -> (r: usize)
    ensures
        apps(final(applications)@) == opened(
            apps(old(applications)@),
            AppModel::with_shell(
                terminal_title(*old(next_terminal_id)),
                terminal_place(screen_w, screen_h),
                path@,
                entries(commands@),
                session,
            ).on(current_desktop),
        ),
        r == old(applications)@.len(),
        *final(next_terminal_id) == next_id(*old(next_terminal_id)),
        all_wf(apps(old(applications)@)) ==> all_wf(apps(final(applications)@)),
{
    let id: usize = *next_terminal_id;
    *next_terminal_id = id.saturating_add(1);
    let mut title = "Terminal ".to_owned();
    push_dec(&mut title, id as u128);
    let win = centered_terminal(screen_w, screen_h);
    let app = Application::terminal_window(
        title.as_str(),
        win,
        path.to_owned(),
        commands,
        session,
    ).with_desktop(current_desktop);
    open_app(applications, app)
}

/// Opens a window for an interactive program. `session` is the program that was
/// started for it. Gives its place in the list.
pub fn spawn_interactive_terminal(
    applications: &mut Vec<Application>,
    next_terminal_id: &mut usize,
    current_desktop: usize,
    screen_w: u16,
    screen_h: u16,
    path: &str,
    program: &str,
    session: Option<ShellSession>,
) -> (r: usize)
    ensures
        apps(final(applications)@) == opened(
            apps(old(applications)@),
            AppModel::with_program(
                program_title(program@, *old(next_terminal_id)),
                terminal_place(screen_w, screen_h),
                path@,
                session,
            ).on(current_desktop),
        ),
        r == old(applications)@.len(),
        *final(next_terminal_id) == next_id(*old(next_terminal_id)),
        all_wf(apps(old(applications)@)) ==> all_wf(apps(final(applications)@)),
{
    let id: usize = *next_terminal_id;
    *next_terminal_id = id.saturating_add(1);
    let v = chars_of(program);
    let title = if trim_chars(&v).len() == 0 {
        let mut t = "App ".to_owned();
        push_dec(&mut t, id as u128);
        t
    } else {
        to_text(&first_word_chars(&v))
    };
    let win = centered_terminal(screen_w, screen_h);
    let app = Application::interactive_terminal_window(
        title.as_str(),
        win,
        path.to_owned(),
        session,
    ).with_desktop(current_desktop);
    open_app(applications, app)
}

/// Where a new terminal goes, and what it begins with.
pub struct TerminalSpawn {
    pub desktop: usize,
    pub x: u16,
    pub y: u16,
    pub w: u16,
    pub h: u16,
    pub path: String,
    pub commands: Vec<CommandEntry>,
}

/// Opens a terminal window at a given place.
pub fn spawn_terminal_window_at(
    applications: &mut Vec<Application>,
    next_terminal_id: &mut usize,
    spawn: TerminalSpawn,
    session: Option<ShellSession>,
) -> (r: usize)
    ensures
        apps(final(applications)@) == opened(
            apps(old(applications)@),
            AppModel::with_shell(
                terminal_title(*old(next_terminal_id)),
                Window::plain(spawn.x, spawn.y, spawn.w, spawn.h, 0),
                spawn.path@,
                entries(spawn.commands@),
                session,
            ).on(spawn.desktop),
        ),
        r == old(applications)@.len(),
        *final(next_terminal_id) == next_id(*old(next_terminal_id)),
        all_wf(apps(old(applications)@)) ==> all_wf(apps(final(applications)@)),
{
    let id: usize = *next_terminal_id;
    *next_terminal_id = id.saturating_add(1);
    let mut title = "Terminal ".to_owned();
    push_dec(&mut title, id as u128);
    let win = Window::new(spawn.x, spawn.y, spawn.w, spawn.h, 0);
    let app = Application::terminal_window(
        title.as_str(),
        win,
        spawn.path,
        spawn.commands,
        session,
    ).with_desktop(spawn.desktop);
    open_app(applications, app)
}

#[derive(Debug, Clone, Copy, PartialEq, Eq, Structural)]
pub enum SplitDirection {
    Vertical,
    Horizontal,
}

/// The two parts of a window that is split: what it keeps, and the new one.
pub open spec fn halves(w: Window, direction: SplitDirection) -> ((u16, u16, u16, u16), (
    u16,
    u16,
    u16,
    u16,
)) {
    match direction {
        SplitDirection::Vertical => {
            let left = max16(w.width / 2, MIN_W);
            let right = max16((w.width - left) as u16, MIN_W);
            (
                (w.position_x, w.position_y, left, w.height),
                (sat16(w.position_x + w.width - right), w.position_y, right, w.height),
            )
        },
        SplitDirection::Horizontal => {
            let top = max16(w.height / 2, MIN_H);
            let bottom = max16((w.height - top) as u16, MIN_H);
            (
                (w.position_x, w.position_y, w.width, top),
                (w.position_x, sat16(w.position_y + w.height - bottom), w.width, bottom),
            )
        },
    }
}

/// Whether a window is large enough to be split.
pub open spec fn divisible(w: Window, direction: SplitDirection) -> bool {
    w.resizable && match direction {
        SplitDirection::Vertical => w.width >= 2 * MIN_W,
        SplitDirection::Horizontal => w.height >= 2 * MIN_H,
    }
}

/// The two parts of a window that is split fill it and do not overlap.
pub proof fn lemma_halves_tile(w: Window, direction: SplitDirection)
    requires
        divisible(w, direction),
        w.fits(),
    ensures
        ({
            let (a, b) = halves(w, direction);
            match direction {
                SplitDirection::Vertical => {
                    &&& a.2 + b.2 == w.width
                    &&& b.0 == a.0 + a.2
                    &&& a.2 >= MIN_W && b.2 >= MIN_W
                    &&& a.3 == w.height && b.3 == w.height && a.1 == b.1
                },
                SplitDirection::Horizontal => {
                    &&& a.3 + b.3 == w.height
                    &&& b.1 == a.1 + a.3
                    &&& a.3 >= MIN_H && b.3 >= MIN_H
                    &&& a.2 == w.width && b.2 == w.width && a.0 == b.0
                },
            }
        }),
{
}

/// The terminal that a split is about.
pub open spec fn split_target(
    a: Seq<AppModel>,
    mode: ModeModel,
    desktop: usize,
    direction: SplitDirection,
) -> Option<usize> {
    match active(a, mode, desktop) {
        Some(i) => {
            let m = a[i as int];
            if m.is_menu || m.terminal is None || !divisible(m.window()->0, direction) {
                None
            } else {
                Some(i)
            }
        },
        None => None,
    }
}

fn find_split(
    applications: &Vec<Application>,
    mode: &Mode,
    current_desktop: usize,
    direction: SplitDirection,
) -> (r: Option<usize>)
    ensures
        r == split_target(apps(applications@), mode@, current_desktop, direction),
        r matches Some(i) ==> i < applications@.len() && applications@[i as int]@.window() is Some
            && divisible(applications@[i as int]@.window()->0, direction)
            && applications@[i as int]@.terminal is Some,
{
    match active_window_idx(applications, mode, current_desktop) {
        None => None,
        Some(i) => {
            let app = &applications[i];
            assert(apps(applications@)[i as int] == app@);
            if app.is_menu || app.terminal.is_none() {
                return None;
            }
            match app.window() {
                Some(w) => {
                    let large = match direction {
                        SplitDirection::Vertical => w.width >= 2 * MIN_W,
                        SplitDirection::Horizontal => w.height >= 2 * MIN_H,
                    };
                    if w.resizable && large {
                        Some(i)
                    } else {
                        None
                    }
                },
                None => None,
            }
        },
    }
}

/// The directory in which a split starts a shell, where one is possible.
pub fn split_path(
    applications: &Vec<Application>,
    mode: &Mode,
    current_desktop: usize,
    direction: SplitDirection,
) -> (r: Option<String>)
    ensures
        match (r, split_target(apps(applications@), mode@, current_desktop, direction)) {
            (Some(p), Some(i)) => p@ == apps(applications@)[i as int].terminal->0.path,
            (None, None) => true,
            _ => false,
        },
{
    match find_split(applications, mode, current_desktop, direction) {
        None => None,
        Some(i) => {
            assert(apps(applications@)[i as int] == applications@[i as int]@);
            match &applications[i].terminal {
                Some(t) => Some(t.path.clone()),
                None => None,
            }
        },
    }
}

/// The applications after a split: the terminal keeps one part, a new one with the
/// same directory and history gets the other.
pub open spec fn split(
    a: Seq<AppModel>,
    i: int,
    desktop: usize,
    direction: SplitDirection,
    id: usize,
    session: Option<ShellSession>,
) -> Seq<AppModel> {
    let m = a[i];
    let t = m.terminal->0;
    let (old, new) = halves(m.window()->0, direction);
    opened(
        a.update(i, m.shown_as(m.display.placed(old.0, old.1, old.2, old.3))),
        AppModel::with_shell(
            terminal_title(id),
            Window::plain(new.0, new.1, new.2, new.3, 0),
            t.path,
            crate::app::at_rest(t.commands),
            session,
        ).on(desktop),
    )
}

fn halve(w: &Window, direction: SplitDirection) -> (r: ((u16, u16, u16, u16), (u16, u16, u16, u16)))
    requires
        divisible(*w, direction),
    ensures
        r == halves(*w, direction),
{
    match direction {
        SplitDirection::Vertical => {
            let left: u16 = max16(w.width / 2, MIN_W);
            let right: u16 = max16(w.width - left, MIN_W);
            (
                (w.position_x, w.position_y, left, w.height),
                (w.position_x.saturating_add(w.width - right), w.position_y, right, w.height),
            )
        },
        SplitDirection::Horizontal => {
            let top: u16 = max16(w.height / 2, MIN_H);
            let bottom: u16 = max16(w.height - top, MIN_H);
            (
                (w.position_x, w.position_y, w.width, top),
                (w.position_x, w.position_y.saturating_add(w.height - bottom), w.width, bottom),
            )
        },
    }
}

/// Splits the active terminal. `session` is the shell that was started for the new
/// part, in the directory that `split_path` gives. Gives its place in the list.
pub fn split_active_terminal_window(
    applications: &mut Vec<Application>,
    mode: &Mode,
    next_terminal_id: &mut usize,
    current_desktop: usize,
    direction: SplitDirection,
    session: Option<ShellSession>,
) -> (r: Option<usize>)
    ensures
        match split_target(apps(old(applications)@), mode@, current_desktop, direction) {
            Some(i) => {
                &&& r == Some(old(applications)@.len() as usize)
                &&& apps(final(applications)@) == split(
                    apps(old(applications)@),
                    i as int,
                    current_desktop,
                    direction,
                    *old(next_terminal_id),
                    session,
                )
                &&& *final(next_terminal_id) == next_id(*old(next_terminal_id))
            },
            None => {
                &&& r is None
                &&& apps(final(applications)@) == apps(old(applications)@)
                &&& *final(next_terminal_id) == *old(next_terminal_id)
            },
        },
        all_wf(apps(old(applications)@)) ==> all_wf(apps(final(applications)@)),
{
    match find_split(applications, mode, current_desktop, direction) {
        None => None,
        Some(i) => {
            let ghost given = apps(applications@);
            assert(given[i as int] == applications@[i as int]@);
            let (w, path, commands): (Window, String, Vec<CommandEntry>) = {
                let app = &applications[i];
                let w: Window = match app.window() {
                    Some(w) => *w,
                    None => Window::new(0, 0, 0, 0, 0),
                };
                match &app.terminal {
                    Some(t) => {
                        let copies = clone_entries(&t.commands);
                        assert(entries(copies@) =~= crate::app::at_rest(entries(t.commands@)));
                        (w, t.path.clone(), copies)
                    },
                    None => (w, String::new(), Vec::new()),
                }
            };
            let (old_part, new_part) = halve(&w, direction);
            let mut placed = w;
            placed.position_x = old_part.0;
            placed.position_y = old_part.1;
            placed.width = old_part.2;
            placed.height = old_part.3;
            display_app(applications, i, DisplayMode::Windowed(placed));
            Some(
                spawn_terminal_window_at(
                    applications,
                    next_terminal_id,
                    TerminalSpawn {
                        desktop: current_desktop,
                        x: new_part.0,
                        y: new_part.1,
                        w: new_part.2,
                        h: new_part.3,
                        path,
                        commands,
                    },
                    session,
                ),
            )
        },
    }
}

// ── The start menu and the help ──────────────────────────────────────────────

/// Whether an application of a desktop is the help window, or a menu.
pub open spec fn is_kind(a: AppModel, desktop: usize, help: bool) -> bool {
    a.desktop == desktop && if help {
        a.help is Some
    } else {
        a.is_menu
    }
}

/// The first help window or menu among the first `n` applications.
pub open spec fn first_of(a: Seq<AppModel>, desktop: usize, help: bool, n: int) -> Option<usize>
    decreases n,
{
    if n <= 0 {
        None
    } else {
        match first_of(a, desktop, help, n - 1) {
            Some(i) => Some(i),
            None => if is_kind(a[n - 1], desktop, help) {
                Some((n - 1) as usize)
            } else {
                None
            },
        }
    }
}

/// The last help window or menu among the first `n` applications.
pub open spec fn last_of(a: Seq<AppModel>, desktop: usize, help: bool, n: int) -> Option<usize>
    decreases n,
{
    if n <= 0 {
        None
    } else if is_kind(a[n - 1], desktop, help) {
        Some((n - 1) as usize)
    } else {
        last_of(a, desktop, help, n - 1)
    }
}

fn kind_at(applications: &Vec<Application>, i: usize, desktop: usize, help: bool) -> (r: bool)
    requires
        i < applications@.len(),
    ensures
        r == is_kind(apps(applications@)[i as int], desktop, help),
{
    let app = &applications[i];
    app.on_desktop(desktop) && if help {
        app.help.is_some()
    } else {
        app.is_menu
    }
}

/// The first help window or menu of a desktop.
pub fn find_first(applications: &Vec<Application>, desktop: usize, help: bool) -> (r: Option<usize>)
    ensures
        r == first_of(apps(applications@), desktop, help, applications@.len() as int),
        r matches Some(i) ==> i < applications@.len(),
{
    let mut r: Option<usize> = None;
    let mut i: usize = 0;
    while i < applications.len()
        invariant
            i <= applications@.len(),
            r == first_of(apps(applications@), desktop, help, i as int),
            r matches Some(k) ==> k < applications@.len(),
        decreases applications@.len() - i,
    {
        if r.is_none() && kind_at(applications, i, desktop, help) {
            r = Some(i);
        }
        i = i + 1;
    }
    r
}

/// The last help window or menu of a desktop.
pub fn find_last(applications: &Vec<Application>, desktop: usize, help: bool) -> (r: Option<usize>)
    ensures
        r == last_of(apps(applications@), desktop, help, applications@.len() as int),
        r matches Some(i) ==> i < applications@.len(),
{
    let mut n: usize = applications.len();
    while n > 0
        invariant
            n <= applications@.len(),
            last_of(apps(applications@), desktop, help, applications@.len() as int) == last_of(
                apps(applications@),
                desktop,
                help,
                n as int,
            ),
        decreases n,
    {
        if kind_at(applications, n - 1, desktop, help) {
            return Some(n - 1);
        }
        n = n - 1;
    }
    None
}

/// The longest of the labels.
pub open spec fn longest_label(items: Seq<MenuItemModel>) -> nat
    decreases items.len(),
{
    if items.len() == 0 {
        0
    } else {
        crate::ui::panel::max_nat(longest_label(items.drop_last()), items.last().label.len())
    }
}

/// The longest of the lines.
pub open spec fn longest_line(lines: Seq<Seq<char>>) -> nat
    decreases lines.len(),
{
    if lines.len() == 0 {
        0
    } else {
        crate::ui::panel::max_nat(longest_line(lines.drop_last()), lines.last().len())
    }
}

pub open spec fn clamped(v: int, low: int, high: int) -> int {
    if v < low {
        low
    } else if v > high {
        high
    } else {
        v
    }
}

/// The window of the start menu: above the status bar, as wide as its entries.
pub open spec fn menu_place(screen_h: u16, items: Seq<MenuItemModel>) -> Window {
    let h = clamped(tab_area(screen_h) * 3 / 4, MIN_H as int, 0xffff);
    let y = clamped(screen_h - 3 - h, 0, 0xffff);
    Window::plain(
        2,
        y as u16,
        clamped(longest_label(items) as int + 6, 12, 48) as u16,
        h as u16,
        0,
    ).bare()
}

/// The window of the help: in the middle, as wide as its lines.
pub open spec fn help_place(screen_w: u16, screen_h: u16) -> Window {
    let most = if screen_w >= 2 {
        screen_w - 2
    } else {
        0
    };
    let w = clamped(longest_line(crib_sheet()) as int + 6, 48, 96);
    let w = if w < most {
        w
    } else {
        most
    };
    let h = clamped(tab_area(screen_h), MIN_H as int, 24);
    let y = clamped(screen_h - 3 - h, 0, 0xffff) / 2;
    Window::plain(
        clamped((screen_w - w) / 2, 1, 0xffff) as u16,
        clamped(y, 1, 0xffff) as u16,
        w as u16,
        h as u16,
        0,
    )
}

/// The applications with the start menu closed where it was open, and open where
/// it was not.
pub open spec fn menu_toggled(
    a: Seq<AppModel>,
    desktop: usize,
    screen_h: u16,
    items: Seq<MenuItemModel>,
) -> Seq<AppModel> {
    match first_of(a, desktop, false, a.len() as int) {
        Some(i) => a.remove(i as int),
        None => opened(
            a,
            AppModel::with_menu("Start"@, menu_place(screen_h, items), items).on(desktop),
        ),
    }
}

/// The applications with the help closed where it was open, and open where it was
/// not.
pub open spec fn help_toggled(
    a: Seq<AppModel>,
    desktop: usize,
    screen_w: u16,
    screen_h: u16,
) -> Seq<AppModel> {
    match first_of(a, desktop, true, a.len() as int) {
        Some(i) => a.remove(i as int),
        None => opened(
            a,
            AppModel::with_help("Help"@, help_place(screen_w, screen_h)).on(desktop),
        ),
    }
}

proof fn lemma_first_of_prefix(a: Seq<AppModel>, b: Seq<AppModel>, desktop: usize, help: bool, n: int)
    requires
        0 <= n <= a.len(),
        n <= b.len(),
        forall|i: int| 0 <= i < n ==> a[i] == b[i],
    ensures
        first_of(a, desktop, help, n) == first_of(b, desktop, help, n),
    decreases n,
{
    if n > 0 {
        lemma_first_of_prefix(a, b, desktop, help, n - 1);
    }
}

/// The start menu that was closed, opened and closed again leaves everything as it
/// was.
pub proof fn lemma_menu_toggled_twice(
    a: Seq<AppModel>,
    desktop: usize,
    screen_h: u16,
    items: Seq<MenuItemModel>,
    more: Seq<MenuItemModel>,
)
    requires
        a.len() <= usize::MAX,
        first_of(a, desktop, false, a.len() as int) is None,
    ensures
        menu_toggled(menu_toggled(a, desktop, screen_h, items), desktop, screen_h, more) == a,
{
    let b = menu_toggled(a, desktop, screen_h, items);
    let n = a.len() as int;
    assert forall|i: int| 0 <= i < n implies a[i] == b[i] by {}
    lemma_first_of_prefix(a, b, desktop, false, n);
    assert(first_of(b, desktop, false, n + 1) == Some(n as usize));
    assert(b.remove(n) =~= a);
}

/// The help that was closed, opened and closed again leaves everything as it was.
pub proof fn lemma_help_toggled_twice(
    a: Seq<AppModel>,
    desktop: usize,
    screen_w: u16,
    screen_h: u16,
)
    requires
        a.len() <= usize::MAX,
        first_of(a, desktop, true, a.len() as int) is None,
    ensures
        help_toggled(help_toggled(a, desktop, screen_w, screen_h), desktop, screen_w, screen_h)
            == a,
{
    let b = help_toggled(a, desktop, screen_w, screen_h);
    let n = a.len() as int;
    assert forall|i: int| 0 <= i < n implies a[i] == b[i] by {}
    lemma_first_of_prefix(a, b, desktop, true, n);
    assert(first_of(b, desktop, true, n + 1) == Some(n as usize));
    assert(b.remove(n) =~= a);
}

fn widest_label(items: &Vec<MenuItem>) -> (n: usize)
    ensures
        n == longest_label(menu_items(items@)),
{
    let ghost all = menu_items(items@);
    let mut n: usize = 0;
    let mut i: usize = 0;
    assert(all.take(0) =~= Seq::empty());
    while i < items.len()
        invariant
            i <= items@.len(),
            all == menu_items(items@),
            n == longest_label(all.take(i as int)),
        decreases items@.len() - i,
    {
        assert(all.take(i + 1).drop_last() =~= all.take(i as int));
        assert(all.take(i + 1).last() == items@[i as int]@);
        n = max_len(n, chars_of(items[i].label.as_str()).len());
        i = i + 1;
    }
    assert(all.take(i as int) =~= all);
    n
}

fn widest_line(lines: &Vec<String>) -> (n: usize)
    ensures
        n == longest_line(texts(lines@)),
{
    let ghost all = texts(lines@);
    let mut n: usize = 0;
    let mut i: usize = 0;
    assert(all.take(0) =~= Seq::empty());
    while i < lines.len()
        invariant
            i <= lines@.len(),
            all == texts(lines@),
            n == longest_line(all.take(i as int)),
        decreases lines@.len() - i,
    {
        assert(all.take(i + 1).drop_last() =~= all.take(i as int));
        assert(all.take(i + 1).last() == lines@[i as int]@);
        n = max_len(n, chars_of(lines[i].as_str()).len());
        i = i + 1;
    }
    assert(all.take(i as int) =~= all);
    n
}

fn clamp_width(longest: usize, low: u16, high: u16) -> (w: u16)
    requires
        6 <= low <= high,
    ensures
        w == clamped(longest + 6, low as int, high as int),
{
    if longest >= (high - 6) as usize {
        high
    } else {
        max16((longest + 6) as u16, low)
    }
}

/// Closes the start menu where it is open, and opens it where it is not.
pub fn toggle_start_menu(
    applications: &mut Vec<Application>,
    current_desktop: usize,
    screen_h: u16,
    tab_scroll: &mut usize,
    items: Vec<MenuItem>,
) -> (changed: bool)
    ensures
        changed,
        apps(final(applications)@) == menu_toggled(
            apps(old(applications)@),
            current_desktop,
            screen_h,
            menu_items(items@),
        ),
        *final(tab_scroll) == tab_place(
            apps(final(applications)@),
            current_desktop,
            screen_h,
            *old(tab_scroll),
        ),
        all_wf(apps(old(applications)@)) ==> all_wf(apps(final(applications)@)),
{
    match find_first(applications, current_desktop, false) {
        Some(i) => {
            let _ = remove_app(applications, i);
        },
        None => {
            let area: u16 = screen_h.saturating_sub(4);
            let h: u16 = max16((area as u32 * 3 / 4) as u16, MIN_H);
            let y: u16 = screen_h.saturating_sub(3).saturating_sub(h);
            let w: u16 = clamp_width(widest_label(&items), 12, 48);
            let win = Window::new(2, y, w, h, 0).without_chrome();
            let app = Application::start_menu("Start", win, items).with_desktop(current_desktop);
            let _ = open_app(applications, app);
        },
    }
    *tab_scroll = clamp_tabs(applications, current_desktop, screen_h, *tab_scroll);
    true
}

/// Closes the help where it is open, and opens it where it is not.
pub fn toggle_help_window(
    applications: &mut Vec<Application>,
    current_desktop: usize,
    screen_w: u16,
    screen_h: u16,
    tab_scroll: &mut usize,
) -> (changed: bool)
    ensures
        changed,
        apps(final(applications)@) == help_toggled(
            apps(old(applications)@),
            current_desktop,
            screen_w,
            screen_h,
        ),
        *final(tab_scroll) == tab_place(
            apps(final(applications)@),
            current_desktop,
            screen_h,
            *old(tab_scroll),
        ),
        all_wf(apps(old(applications)@)) ==> all_wf(apps(final(applications)@)),
{
    match find_first(applications, current_desktop, true) {
        Some(i) => {
            let _ = remove_app(applications, i);
        },
        None => {
            let lines = crate::help::content();
            let w: u16 = min16(
                clamp_width(widest_line(&lines), 48, 96),
                screen_w.saturating_sub(2),
            );
            let h: u16 = min16(max16(screen_h.saturating_sub(4), MIN_H), 24);
            let x: u16 = max16((screen_w - w) / 2, 1);
            let y: u16 = max16(screen_h.saturating_sub(3).saturating_sub(h) / 2, 1);
            let win = Window::new(x, y, w, h, 0);
            assert(win == help_place(screen_w, screen_h));
            let app = Application::help_window("Help", win).with_desktop(current_desktop);
            let _ = open_app(applications, app);
        },
    }
    *tab_scroll = clamp_tabs(applications, current_desktop, screen_h, *tab_scroll);
    true
}

// ── Commands for the active window ───────────────────────────────────────────

/// The active window maximised, or restored where it was.
pub open spec fn maximize_toggled(
    a: Seq<AppModel>,
    mode: ModeModel,
    desktop: usize,
    screen_w: u16,
    screen_h: u16,
) -> Seq<AppModel> {
    match active(a, mode, desktop) {
        Some(i) => {
            let m = a[i as int];
            a.update(
                i as int,
                m.shown_as(
                    if m.display is Maximized {
                        m.display.unmaximized()
                    } else {
                        m.display.maximized(screen_w, screen_h)
                    },
                ),
            )
        },
        None => a,
    }
}

pub fn toggle_active_maximize(
    applications: &mut Vec<Application>,
    mode: &Mode,
    current_desktop: usize,
    screen_w: u16,
    screen_h: u16,
) -> (changed: bool)
    ensures
        changed == (active(apps(old(applications)@), mode@, current_desktop) is Some),
        apps(final(applications)@) == maximize_toggled(
            apps(old(applications)@),
            mode@,
            current_desktop,
            screen_w,
            screen_h,
        ),
        all_wf(apps(old(applications)@)) ==> all_wf(apps(final(applications)@)),
{
    match active_window_idx(applications, mode, current_desktop) {
        None => false,
        Some(i) => {
            let ghost given = apps(applications@);
            assert(given[i as int] == applications@[i as int]@);
            if applications[i].is_maximized() {
                applications[i].restore_maximize();
            } else {
                applications[i].maximize(screen_w, screen_h);
            }
            assert(apps(applications@) =~= maximize_toggled(
                given,
                mode@,
                current_desktop,
                screen_w,
                screen_h,
            ));
            proof {
                lemma_shown_wf(given, apps(applications@), i as int);
            }
            true
        },
    }
}

/// Applications that differ only in how one is shown are all right together.
proof fn lemma_shown_wf(a: Seq<AppModel>, b: Seq<AppModel>, i: int)
    requires
        a.len() == b.len(),
        0 <= i < a.len(),
        b == a.update(i, a[i].shown_as(b[i].display)),
    ensures
        all_wf(a) ==> all_wf(b),
{
    if all_wf(a) {
        assert forall|k: int| 0 <= k < b.len() implies (#[trigger] b[k]).wf() by {
            assert(a[k].wf());
        }
    }
}

/// What minimising the active window is about: nothing where it can not be.
pub open spec fn minimizes(a: Seq<AppModel>, mode: ModeModel, desktop: usize) -> Option<usize> {
    match active(a, mode, desktop) {
        Some(i) => if a[i as int].window()->0.minimizable {
            Some(i)
        } else {
            None
        },
        None => None,
    }
}

pub fn minimize_active_window(
    applications: &mut Vec<Application>,
    mode: &mut Mode,
    current_desktop: usize,
    screen_h: u16,
    tab_scroll: &mut usize,
) -> (changed: bool)
    ensures
        match minimizes(apps(old(applications)@), old(mode)@, current_desktop) {
            Some(i) => {
                let m = apps(old(applications)@)[i as int];
                &&& changed
                &&& apps(final(applications)@) == apps(old(applications)@).update(
                    i as int,
                    m.shown_as(m.display.unmaximized().minimized()),
                )
                &&& final(mode)@ == ModeModel::Normal
                &&& *final(tab_scroll) == tab_place(
                    apps(final(applications)@),
                    current_desktop,
                    screen_h,
                    *old(tab_scroll),
                )
            },
            None => {
                &&& !changed
                &&& apps(final(applications)@) == apps(old(applications)@)
                &&& final(mode)@ == old(mode)@
                &&& *final(tab_scroll) == *old(tab_scroll)
            },
        },
        all_wf(apps(old(applications)@)) ==> all_wf(apps(final(applications)@)),
{
    match active_window_idx(applications, mode, current_desktop) {
        None => false,
        Some(i) => {
            let ghost given = apps(applications@);
            assert(given[i as int] == applications@[i as int]@);
            let can = match applications[i].window() {
                Some(w) => w.minimizable,
                None => false,
            };
            if !can {
                return false;
            }
            if applications[i].is_maximized() {
                applications[i].restore_maximize();
            }
            applications[i].minimize();
            assert(apps(applications@) =~= given.update(
                i as int,
                given[i as int].shown_as(given[i as int].display.unmaximized().minimized()),
            ));
            proof {
                lemma_shown_wf(given, apps(applications@), i as int);
            }
            *tab_scroll = clamp_tabs(applications, current_desktop, screen_h, *tab_scroll);
            *mode = Mode::Normal;
            true
        },
    }
}

/// The applications with a window on a desktop.
pub open spec fn visible(a: Seq<AppModel>, desktop: usize) -> Seq<usize>
    decreases a.len(),
{
    if a.len() == 0 {
        Seq::empty()
    } else {
        let front = visible(a.drop_last(), desktop);
        if shows(a.last(), desktop, None) {
            front.push((a.len() - 1) as usize)
        } else {
            front
        }
    }
}

/// The window that has the focus next: the one behind or before the active one in
/// the list, round and round.
pub open spec fn focus_target(
    a: Seq<AppModel>,
    mode: ModeModel,
    desktop: usize,
    backward: bool,
) -> Option<usize> {
    let list = visible(a, desktop);
    if list.len() <= 1 {
        None
    } else {
        let now = match active(a, mode, desktop) {
            Some(i) => i as int,
            None => list.last() as int,
        };
        let at = visible(a.take(now), desktop).len() as int;
        let to = if backward {
            if at > 0 {
                at - 1
            } else {
                list.len() - 1
            }
        } else if at + 1 < list.len() {
            at + 1
        } else {
            0
        };
        Some(list[to])
    }
}

fn visible_list(applications: &Vec<Application>, desktop: usize, n: usize) -> (v: Vec<usize>)
    requires
        n <= applications@.len(),
    ensures
        v@ == visible(apps(applications@).take(n as int), desktop),
        forall|k: int| 0 <= k < v@.len() ==> (#[trigger] v@[k]) < n,
{
    let ghost a = apps(applications@);
    let mut v: Vec<usize> = Vec::new();
    let mut i: usize = 0;
    assert(a.take(0) =~= Seq::empty());
    while i < n
        invariant
            i <= n <= applications@.len(),
            a == apps(applications@),
            v@ == visible(a.take(i as int), desktop),
            forall|k: int| 0 <= k < v@.len() ==> (#[trigger] v@[k]) < i,
        decreases n - i,
    {
        assert(a.take(i + 1).drop_last() =~= a.take(i as int));
        assert(a.take(i + 1).last() == applications@[i as int]@);
        if applications[i].on_desktop(desktop) && applications[i].window().is_some() {
            v.push(i);
        }
        i = i + 1;
    }
    v
}

proof fn lemma_visible_grows(a: Seq<AppModel>, desktop: usize, n: int)
    requires
        0 <= n <= a.len(),
    ensures
        visible(a.take(n), desktop).len() <= visible(a, desktop).len(),
        n < a.len() && shows(a[n], desktop, None) ==> visible(a.take(n), desktop).len() < visible(
            a,
            desktop,
        ).len(),
    decreases a.len() - n,
{
    if n < a.len() {
        lemma_visible_grows(a, desktop, n + 1);
        assert(a.take(n + 1).drop_last() =~= a.take(n));
    } else {
        assert(a.take(n) =~= a);
    }
}

proof fn lemma_visible_shown(a: Seq<AppModel>, desktop: usize, k: int)
    requires
        a.len() <= usize::MAX,
        0 <= k < visible(a, desktop).len(),
    ensures
        visible(a, desktop)[k] < a.len(),
        shows(a[visible(a, desktop)[k] as int], desktop, None),
    decreases a.len(),
{
    if k < visible(a.drop_last(), desktop).len() {
        lemma_visible_shown(a.drop_last(), desktop, k);
    }
}

pub fn focus_relative_window(
    applications: &mut Vec<Application>,
    mode: &mut Mode,
    current_desktop: usize,
    backward: bool,
) -> (changed: bool)
    ensures
        match focus_target(apps(old(applications)@), old(mode)@, current_desktop, backward) {
            Some(i) => {
                &&& changed
                &&& apps(final(applications)@) == raised(apps(old(applications)@), i as int)
                &&& final(mode)@ == ModeModel::Normal
            },
            None => {
                &&& !changed
                &&& apps(final(applications)@) == apps(old(applications)@)
                &&& final(mode)@ == old(mode)@
            },
        },
        all_wf(apps(old(applications)@)) ==> all_wf(apps(final(applications)@)),
{
    let ghost a = apps(applications@);
    let n: usize = applications.len();
    assert(a.take(n as int) =~= a);
    let list = visible_list(applications, current_desktop, n);
    let count: usize = list.len();
    if count <= 1 {
        return false;
    }
    let now: usize = match active_window_idx(applications, mode, current_desktop) {
        Some(i) => {
            assert(a[i as int] == applications@[i as int]@);
            i
        },
        None => {
            proof {
                lemma_visible_shown(a, current_desktop, count - 1);
            }
            list[count - 1]
        },
    };
    let at: usize = visible_list(applications, current_desktop, now).len();
    proof {
        lemma_visible_grows(a, current_desktop, now as int);
    }
    let to: usize = if backward {
        if at > 0 {
            at - 1
        } else {
            count - 1
        }
    } else if at + 1 < count {
        at + 1
    } else {
        0
    };
    let _ = bring_window_to_front(applications, list[to]);
    *mode = Mode::Normal;
    true
}

/// Whether the application of a mode is on a desktop.
pub open spec fn on_target(mode: ModeModel, a: Seq<AppModel>, desktop: usize) -> bool {
    match mode.target() {
        Some(i) => i < a.len() && a[i as int].desktop == desktop,
        None => true,
    }
}

pub fn mode_targets_desktop(mode: &Mode, applications: &Vec<Application>, current_desktop: usize) -> (r:
    bool)
    ensures
        r == on_target(mode@, apps(applications@), current_desktop),
{
    match mode.target() {
        Some(i) => i < applications.len() && applications[i].on_desktop(current_desktop),
        None => true,
    }
}

/// What moving the active window to another desktop is about.
pub open spec fn moves(a: Seq<AppModel>, mode: ModeModel, desktop: usize, to: usize) -> Option<
    usize,
> {
    match active(a, mode, desktop) {
        Some(i) => if to == desktop || a[i as int].is_menu {
            None
        } else {
            Some(i)
        },
        None => None,
    }
}

/// Takes the active window to another desktop, which becomes the current one.
pub fn move_active_window_to_desktop(
    applications: &mut Vec<Application>,
    mode: &mut Mode,
    current_desktop: &mut usize,
    target_desktop: usize,
    screen_h: u16,
    tab_scroll: &mut usize,
) -> (changed: bool)
    ensures
        match moves(
            apps(old(applications)@),
            old(mode)@,
            *old(current_desktop),
            target_desktop,
        ) {
            Some(i) => {
                let a = apps(old(applications)@);
                &&& changed
                &&& apps(final(applications)@) == raised(
                    a.update(i as int, a[i as int].on(target_desktop)),
                    i as int,
                )
                &&& *final(current_desktop) == target_desktop
                &&& *final(tab_scroll) == tab_place(
                    apps(final(applications)@),
                    target_desktop,
                    screen_h,
                    *old(tab_scroll),
                )
                &&& final(mode)@ == (if on_target(
                    old(mode)@,
                    apps(final(applications)@),
                    target_desktop,
                ) {
                    old(mode)@
                } else {
                    ModeModel::Normal
                })
            },
            None => {
                &&& !changed
                &&& apps(final(applications)@) == apps(old(applications)@)
                &&& final(mode)@ == old(mode)@
                &&& *final(current_desktop) == *old(current_desktop)
                &&& *final(tab_scroll) == *old(tab_scroll)
            },
        },
        all_wf(apps(old(applications)@)) ==> all_wf(apps(final(applications)@)),
{
    if target_desktop == *current_desktop {
        return false;
    }
    match active_window_idx(applications, mode, *current_desktop) {
        None => false,
        Some(i) => {
            let ghost given = apps(applications@);
            assert(given[i as int] == applications@[i as int]@);
            if applications[i].is_menu {
                return false;
            }
            applications[i].desktop = target_desktop;
            assert(apps(applications@) =~= given.update(
                i as int,
                given[i as int].on(target_desktop),
            ));
            proof {
                if all_wf(given) {
                    let b = apps(applications@);
                    assert forall|k: int| 0 <= k < b.len() implies (#[trigger] b[k]).wf() by {
                        assert(given[k].wf());
                    }
                }
            }
            let _ = bring_window_to_front(applications, i);
            *current_desktop = target_desktop;
            *tab_scroll = clamp_tabs(applications, target_desktop, screen_h, *tab_scroll);
            if !mode_targets_desktop(mode, applications, target_desktop) {
                *mode = Mode::Normal;
            }
            true
        },
    }
}

// ── Snapping ─────────────────────────────────────────────────────────────────

/// The place of a region of the screen: halves and quarters of the inside.
pub open spec fn region_rect(screen_w: u16, screen_h: u16, region: SnapRegion) -> (
    u16,
    u16,
    u16,
    u16,
) {
    let w = max16(
        if screen_w >= 5 {
            (screen_w - 5) as u16
        } else {
            0
        },
        MIN_W,
    );
    let h = max16(tab_area(screen_h) as u16, MIN_H);
    let left = max16(w / 2, MIN_W);
    let right = max16((w - left) as u16, MIN_W);
    let top = max16(h / 2, MIN_H);
    let bottom = max16((h - top) as u16, MIN_H);
    let x2 = (2 + w - right) as u16;
    let y2 = (1 + h - bottom) as u16;
    match region {
        SnapRegion::Left => (2, 1, left, h),
        SnapRegion::Right => (x2, 1, right, h),
        SnapRegion::Top => (2, 1, w, top),
        SnapRegion::Bottom => (2, y2, w, bottom),
        SnapRegion::TopLeft => (2, 1, left, top),
        SnapRegion::TopRight => (x2, 1, right, top),
        SnapRegion::BottomLeft => (2, y2, left, bottom),
        SnapRegion::BottomRight => (x2, y2, right, bottom),
    }
}

pub fn snap_rect(screen_w: u16, screen_h: u16, region: SnapRegion) -> (r: (u16, u16, u16, u16))
    ensures
        r == region_rect(screen_w, screen_h, region),
{
    let w: u16 = max16(screen_w.saturating_sub(5), MIN_W);
    let h: u16 = max16(screen_h.saturating_sub(4), MIN_H);
    let left: u16 = max16(w / 2, MIN_W);
    let right: u16 = max16(w.saturating_sub(left), MIN_W);
    let top: u16 = max16(h / 2, MIN_H);
    let bottom: u16 = max16(h.saturating_sub(top), MIN_H);
    let x2: u16 = 2 + (w - right);
    let y2: u16 = 1 + (h - bottom);
    match region {
        SnapRegion::Left => (2, 1, left, h),
        SnapRegion::Right => (x2, 1, right, h),
        SnapRegion::Top => (2, 1, w, top),
        SnapRegion::Bottom => (2, y2, w, bottom),
        SnapRegion::TopLeft => (2, 1, left, top),
        SnapRegion::TopRight => (x2, 1, right, top),
        SnapRegion::BottomLeft => (2, y2, left, bottom),
        SnapRegion::BottomRight => (x2, y2, right, bottom),
    }
}

/// The halves and quarters of the screen fill the place of a maximised window and
/// do not overlap.
pub proof fn lemma_regions_tile(screen_w: u16, screen_h: u16)
    requires
        screen_w >= 15,
        screen_h >= 10,
    ensures
        ({
            let full = DisplayMode::full_window(screen_w, screen_h, 0);
            let l = region_rect(screen_w, screen_h, SnapRegion::Left);
            let r = region_rect(screen_w, screen_h, SnapRegion::Right);
            let t = region_rect(screen_w, screen_h, SnapRegion::Top);
            let b = region_rect(screen_w, screen_h, SnapRegion::Bottom);
            &&& l.0 == full.position_x && l.2 + r.2 == full.width && r.0 == l.0 + l.2
            &&& l.1 == full.position_y && l.3 == full.height && r.1 == l.1 && r.3 == l.3
            &&& t.1 == full.position_y && t.3 + b.3 == full.height && b.1 == t.1 + t.3
            &&& t.0 == full.position_x && t.2 == full.width && b.0 == t.0 && b.2 == t.2
            &&& region_rect(screen_w, screen_h, SnapRegion::TopLeft) == (l.0, t.1, l.2, t.3)
            &&& region_rect(screen_w, screen_h, SnapRegion::TopRight) == (r.0, t.1, r.2, t.3)
            &&& region_rect(screen_w, screen_h, SnapRegion::BottomLeft) == (l.0, b.1, l.2, b.3)
            &&& region_rect(screen_w, screen_h, SnapRegion::BottomRight) == (r.0, b.1, r.2, b.3)
        }),
{
}

/// Whether a window has a given place and size.
pub open spec fn stands_at(w: Window, r: (u16, u16, u16, u16)) -> bool {
    w.position_x == r.0 && w.position_y == r.1 && w.width == r.2 && w.height == r.3
}

pub fn window_matches_geometry(win: &Window, x: u16, y: u16, w: u16, h: u16) -> (r: bool)
    ensures
        r == stands_at(*win, (x, y, w, h)),
{
    win.position_x == x && win.position_y == y && win.width == w && win.height == h
}

/// How a window is shown after it is snapped to a region. The upper half, asked for
/// again, becomes the whole screen, and then the upper half again.
pub open spec fn snapped(d: DisplayMode, screen_w: u16, screen_h: u16, region: SnapRegion) -> DisplayMode {
    let r = region_rect(screen_w, screen_h, region);
    let at_saved = match d {
        DisplayMode::Maximized { saved, .. } => stands_at(saved, r),
        _ => false,
    };
    let at_place = match d {
        DisplayMode::Windowed(w) => stands_at(w, r),
        _ => false,
    };
    if region == SnapRegion::Top && at_saved {
        d.unmaximized()
    } else if region == SnapRegion::Top && at_place {
        d.maximized(screen_w, screen_h)
    } else {
        d.placed(r.0, r.1, r.2, r.3)
    }
}

/// The upper half and the whole screen take turns.
pub proof fn lemma_top_snap_cycle(w: Window, screen_w: u16, screen_h: u16)
    requires
        !stands_at(w, region_rect(screen_w, screen_h, SnapRegion::Top)),
    ensures
        ({
            let once = snapped(DisplayMode::Windowed(w), screen_w, screen_h, SnapRegion::Top);
            let twice = snapped(once, screen_w, screen_h, SnapRegion::Top);
            let thrice = snapped(twice, screen_w, screen_h, SnapRegion::Top);
            &&& once is Windowed && stands_at(
                once.window()->0,
                region_rect(screen_w, screen_h, SnapRegion::Top),
            )
            &&& twice is Maximized
            &&& thrice == once
        }),
{
}

/// What snapping the active window is about.
pub open spec fn snaps(a: Seq<AppModel>, mode: ModeModel, desktop: usize) -> Option<usize> {
    match active(a, mode, desktop) {
        Some(i) => if a[i as int].window()->0.resizable {
            Some(i)
        } else {
            None
        },
        None => None,
    }
}

pub fn snap_active_window(
    applications: &mut Vec<Application>,
    mode: &mut Mode,
    current_desktop: usize,
    screen_w: u16,
    screen_h: u16,
    region: SnapRegion,
) -> (changed: bool)
    ensures
        match snaps(apps(old(applications)@), old(mode)@, current_desktop) {
            Some(i) => {
                let m = apps(old(applications)@)[i as int];
                &&& changed
                &&& apps(final(applications)@) == apps(old(applications)@).update(
                    i as int,
                    m.shown_as(snapped(m.display, screen_w, screen_h, region)),
                )
                &&& final(mode)@ == ModeModel::Normal
            },
            None => {
                &&& !changed
                &&& apps(final(applications)@) == apps(old(applications)@)
                &&& final(mode)@ == old(mode)@
            },
        },
        all_wf(apps(old(applications)@)) ==> all_wf(apps(final(applications)@)),
{
    match active_window_idx(applications, mode, current_desktop) {
        None => false,
        Some(i) => {
            let ghost given = apps(applications@);
            assert(given[i as int] == applications@[i as int]@);
            let can = match applications[i].window() {
                Some(w) => w.resizable,
                None => false,
            };
            if !can {
                return false;
            }
            let (x, y, w, h) = snap_rect(screen_w, screen_h, region);
            let top = match region {
                SnapRegion::Top => true,
                _ => false,
            };
            let at_saved = match applications[i].saved_window() {
                Some(s) => window_matches_geometry(s, x, y, w, h),
                None => false,
            };
            let at_place = match applications[i].display {
                DisplayMode::Windowed(s) => window_matches_geometry(&s, x, y, w, h),
                _ => false,
            };
            if top && at_saved {
                applications[i].restore_maximize();
            } else if top && at_place {
                applications[i].maximize(screen_w, screen_h);
            } else {
                applications[i].set_window_geometry(x, y, w, h);
            }
            assert(apps(applications@) =~= given.update(
                i as int,
                given[i as int].shown_as(
                    snapped(given[i as int].display, screen_w, screen_h, region),
                ),
            ));
            proof {
                lemma_shown_wf(given, apps(applications@), i as int);
            }
            *mode = Mode::Normal;
            true
        },
    }
}

// ── The pointer and sizes ────────────────────────────────────────────────────

/// The pointer at a cell, kept inside the screen.
pub open spec fn pointer_at(x: int, y: int, screen_w: u16, screen_h: u16) -> Pointer {
    Pointer { x: inside(x, screen_w), y: inside(y, screen_h) }
}

fn clamp_pointer(x: u32, y: u32, screen_w: u16, screen_h: u16) -> (p: Pointer)
    ensures
        p == pointer_at(x as int, y as int, screen_w, screen_h),
{
    let mut p = Pointer::new(
        if x > 0xffff {
            0xffff
        } else {
            x as u16
        },
        if y > 0xffff {
            0xffff
        } else {
            y as u16
        },
    );
    p.clamp_to_bounds(screen_w, screen_h);
    p
}

/// Where the input of a terminal window begins.
pub open spec fn input_cell(w: Window) -> (int, int) {
    let below: int = if has_hscroll(w) {
        3
    } else {
        2
    };
    let x = w.position_x + 1 + TERMINAL_PREFIX_LEN;
    let last = w.position_x + w.inner_w();
    (
        if x < last {
            x
        } else {
            last
        },
        w.position_y + if w.height >= below {
            w.height - below
        } else {
            0
        },
    )
}

/// The pointer on the input of a terminal window.
pub open spec fn pointed(p: Pointer, a: Seq<AppModel>, i: usize, screen_w: u16, screen_h: u16) -> Pointer {
    if i < a.len() && a[i as int].window() is Some {
        let (x, y) = input_cell(a[i as int].window()->0);
        pointer_at(x, y, screen_w, screen_h)
    } else {
        p
    }
}

pub fn place_pointer_on_terminal_input(
    pointer: &mut Pointer,
    applications: &Vec<Application>,
    app_idx: usize,
    screen_w: u16,
    screen_h: u16,
)
    ensures
        *final(pointer) == pointed(
            *old(pointer),
            apps(applications@),
            app_idx,
            screen_w,
            screen_h,
        ),
{
    if app_idx >= applications.len() {
        return;
    }
    assert(apps(applications@)[app_idx as int] == applications@[app_idx as int]@);
    match applications[app_idx].window() {
        None => {},
        Some(w) => {
            let below: u16 = if w.content_w as usize > w.visible_w() {
                3
            } else {
                2
            };
            let x: u32 = w.position_x as u32 + 1 + TERMINAL_PREFIX_LEN as u32;
            let last: u32 = w.position_x as u32 + w.visible_w() as u32;
            let y: u32 = w.position_y as u32 + w.height.saturating_sub(below) as u32;
            *pointer = clamp_pointer(
                if x < last {
                    x
                } else {
                    last
                },
                y,
                screen_w,
                screen_h,
            );
        },
    }
}

/// What resizing the active window is about: nothing where it can not be resized or
/// fills the screen.
pub open spec fn resizes(a: Seq<AppModel>, mode: ModeModel, desktop: usize) -> Option<usize> {
    match active(a, mode, desktop) {
        Some(i) => if a[i as int].display is Maximized || !a[i as int].window()->0.resizable {
            None
        } else {
            Some(i)
        },
        None => None,
    }
}

/// Begins to resize the active window, with the pointer in its corner.
pub fn enter_active_resize_mode(
    applications: &Vec<Application>,
    mode: &mut Mode,
    current_desktop: usize,
    pointer: &mut Pointer,
    screen_w: u16,
    screen_h: u16,
) -> (changed: bool)
    ensures
        match resizes(apps(applications@), old(mode)@, current_desktop) {
            Some(i) => {
                let w = apps(applications@)[i as int].window()->0;
                &&& changed
                &&& final(mode)@ == (ModeModel::Resizing { app_idx: i, edit: None })
                &&& *final(pointer) == pointer_at(
                    w.position_x + if w.width > 0 {
                        w.width - 1
                    } else {
                        0
                    },
                    w.position_y + if w.height > 0 {
                        w.height - 1
                    } else {
                        0
                    },
                    screen_w,
                    screen_h,
                )
            },
            None => {
                &&& !changed
                &&& final(mode)@ == old(mode)@
                &&& *final(pointer) == *old(pointer)
            },
        },
{
    match active_window_idx(applications, mode, current_desktop) {
        None => false,
        Some(i) => {
            assert(apps(applications@)[i as int] == applications@[i as int]@);
            if applications[i].is_maximized() {
                return false;
            }
            match applications[i].window() {
                None => false,
                Some(w) => {
                    if !w.resizable {
                        return false;
                    }
                    *pointer = clamp_pointer(
                        w.position_x as u32 + w.width.saturating_sub(1) as u32,
                        w.position_y as u32 + w.height.saturating_sub(1) as u32,
                        screen_w,
                        screen_h,
                    );
                    *mode = Mode::Resizing { app_idx: i, edit: None };
                    true
                },
            }
        },
    }
}

/// One side of the size that the pointer gives a window.
pub open spec fn preview_side(at: u16, from: u16, least: u16) -> u16 {
    max16(
        if at >= from {
            sat16(at - from + 1)
        } else {
            1
        },
        least,
    )
}

/// The size that the pointer gives a window.
pub open spec fn preview_size(w: Window, p: Pointer) -> (u16, u16) {
    (preview_side(p.x, w.position_x, MIN_W), preview_side(p.y, w.position_y, MIN_H))
}

pub fn resize_preview_size(win: &Window, pointer: &Pointer) -> (r: (u16, u16))
    ensures
        r == preview_size(*win, *pointer),
{
    (
        max16(pointer.x.saturating_sub(win.position_x).saturating_add(1), MIN_W),
        max16(pointer.y.saturating_sub(win.position_y).saturating_add(1), MIN_H),
    )
}

/// The size that was typed: the old one plus or minus a number, or the number; 0
/// stands for the least.
pub open spec fn edited_size(op: ResizeOp, value: u16, size: u16) -> u16 {
    if value == 0 {
        0
    } else {
        match op {
            ResizeOp::Add => sat16(size + value),
            ResizeOp::Sub => if size >= value {
                (size - value) as u16
            } else {
                0
            },
            ResizeOp::Assign => value,
        }
    }
}

/// The pointer after a size was typed; nothing where it is no size.
pub open spec fn edit_applied(
    w: Window,
    p: Pointer,
    screen_w: u16,
    screen_h: u16,
    e: EditModel,
) -> Option<Pointer> {
    match (number_of(encode_utf8(e.value)), e.op) {
        (Some(v), Some(op)) => {
            let (width, height) = preview_size(w, p);
            Some(
                match e.axis {
                    ResizeAxis::Width => pointer_at(
                        w.position_x + max16(edited_size(op, v, width), MIN_W) - 1,
                        p.y as int,
                        screen_w,
                        screen_h,
                    ),
                    ResizeAxis::Height => pointer_at(
                        p.x as int,
                        w.position_y + max16(edited_size(op, v, height), MIN_H) - 1,
                        screen_w,
                        screen_h,
                    ),
                },
            )
        },
        _ => None,
    }
}

fn edit_size(op: ResizeOp, value: u16, size: u16) -> (r: u16)
    ensures
        r == edited_size(op, value, size),
{
    if value == 0 {
        return 0;
    }
    match op {
        ResizeOp::Add => size.saturating_add(value),
        ResizeOp::Sub => size.saturating_sub(value),
        ResizeOp::Assign => value,
    }
}

/// Takes the pointer to where it gives the size that was typed. Says whether it was
/// a size.
pub fn apply_resize_edit(
    win: &Window,
    pointer: &mut Pointer,
    screen_w: u16,
    screen_h: u16,
    edit: &ResizeEditState,
) -> (applied: bool)
    ensures
        match edit_applied(*win, *old(pointer), screen_w, screen_h, edit@) {
            Some(p) => applied && *final(pointer) == p,
            None => !applied && *final(pointer) == *old(pointer),
        },
{
    let value: u16 = match parse_number(edit.value.as_str().as_bytes()) {
        Some(v) => v,
        None => {
            return false;
        },
    };
    let op = match edit.op {
        Some(op) => op,
        None => {
            return false;
        },
    };
    let (width, height) = resize_preview_size(win, pointer);
    match edit.axis {
        ResizeAxis::Width => {
            let size: u16 = max16(edit_size(op, value, width), MIN_W);
            *pointer = clamp_pointer(
                win.position_x as u32 + (size - 1) as u32,
                pointer.y as u32,
                screen_w,
                screen_h,
            );
        },
        ResizeAxis::Height => {
            let size: u16 = max16(edit_size(op, value, height), MIN_H);
            *pointer = clamp_pointer(
                pointer.x as u32,
                win.position_y as u32 + (size - 1) as u32,
                screen_w,
                screen_h,
            );
        },
    }
    true
}

} // verus!

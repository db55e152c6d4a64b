//! The state of a terminal window: what a session has printed, the line being
//! typed, and what is sent to the session.
use vstd::prelude::*;
use vstd::string::*;
use vstd::utf8::{decode_utf8, encode_utf8, valid_utf8};
use crate::cmd::{
    entries, kind_of, tick_all, CommandEntry, CommandStatus, EntryModel, LineSplitter, Poll,
    SplitModel, ticks,
};
use crate::os::{Key, MouseAction, MouseButton, MouseEvent};
use crate::terminal_backend::TerminalEvent;
use crate::terminal_emulator::{is_continuation, TermModel, Terminal};
use crate::text::{
    begins_with, chars_are, chars_of, clone_texts, dec, is_space, lossy, lossy_text, lower_all,
    lower_chars, push_dec, push_text, same_chars, space_char, texts, to_text, trim, trim_chars,
    trim_end, trim_start,
};

verus! {

/// A copy of bytes.
pub(crate) fn copy_bytes(b: &[u8]) -> (r: Vec<u8>)
    ensures
        r@ == b@,
{
    let mut r: Vec<u8> = Vec::new();
    while r.len() < b.len()
        invariant
            r@.len() <= b@.len(),
            forall|k: int| 0 <= k < r@.len() ==> r@[k] == b@[k],
        decreases b@.len() - r@.len(),
    {
        r.push(b[r.len()]);
    }
    assert(r@ =~= b@);
    r
}

// ── Commands ─────────────────────────────────────────────────────────────────

/// The command line by which a REPL works line by line on a pipe.
pub open spec fn interactive_form(cmd: Seq<char>) -> Seq<char> {
    let word = lower_all(trim(cmd));
    if word == "python"@ {
        "python -i"@
    } else if word == "python2"@ {
        "python2 -i"@
    } else if word == "python3"@ {
        "python3 -i"@
    } else {
        cmd
    }
}

/// Rewrites a REPL that is called without arguments to its interactive form.
pub fn interactive_command(cmd: &str) -> (s: String)
    ensures
        s@ == interactive_form(cmd@),
{
    let word = lower_chars(&trim_chars(&chars_of(cmd)));
    if chars_are(&word, "python") {
        "python -i".to_owned()
    } else if chars_are(&word, "python2") {
        "python2 -i".to_owned()
    } else if chars_are(&word, "python3") {
        "python3 -i".to_owned()
    } else {
        cmd.to_owned()
    }
}

/// Whether a line leaves a REPL.
pub open spec fn leaves_repl(cmd: Seq<char>) -> bool {
    let word = lower_all(trim(cmd));
    ||| "exit"@.is_prefix_of(word)
    ||| "quit"@.is_prefix_of(word)
    ||| word == "\\q"@
    ||| word == ":q"@
}

pub fn is_repl_exit(cmd: &str) -> (r: bool)
    ensures
        r == leaves_repl(cmd@),
{
    let word = lower_chars(&trim_chars(&chars_of(cmd)));
    begins_with(&word, &chars_of("exit")) || begins_with(&word, &chars_of("quit")) || chars_are(
        &word,
        "\\q",
    ) || chars_are(&word, ":q")
}

/// The programs that need a terminal of their own.
pub open spec fn interactive_named(p: Seq<char>) -> bool {
    ||| p == "python"@
    ||| p == "python3"@
    ||| p == "python2"@
    ||| p == "python3.11"@
    ||| p == "python3.12"@
    ||| p == "ipython"@
    ||| p == "vscode"@
    ||| p == "vim"@
    ||| p == "vim.tiny"@
    ||| p == "nano"@
    ||| p == "emacs"@
    ||| p == "pico"@
    ||| p == "less"@
    ||| p == "more"@
    ||| p == "top"@
    ||| p == "htop"@
    ||| p == "btop"@
    ||| p == "lazygit"@
    ||| p == "fzf"@
    ||| p == "node"@
    ||| p == "node.exe"@
    ||| p == "bash"@
    ||| p == "sh"@
    ||| p == "zsh"@
    ||| p == "cmd"@
    ||| p == "cmd.exe"@
    ||| p == "powershell"@
    ||| p == "powershell.exe"@
    ||| p == "pwsh"@
    ||| p == "pwsh.exe"@
}

/// Whether a program is opened in a terminal of its own.
pub fn is_interactive_app(program: &str) -> (r: bool)
    ensures
        r == interactive_named(lower_all(trim(program@))),
{
    let p = lower_chars(&trim_chars(&chars_of(program)));
    chars_are(&p, "python") || chars_are(&p, "python3") || chars_are(&p, "python2") || chars_are(
        &p,
        "python3.11",
    ) || chars_are(&p, "python3.12") || chars_are(&p, "ipython") || chars_are(&p, "vscode")
        || chars_are(&p, "vim") || chars_are(&p, "vim.tiny") || chars_are(&p, "nano") || chars_are(
        &p,
        "emacs",
    ) || chars_are(&p, "pico") || chars_are(&p, "less") || chars_are(&p, "more") || chars_are(
        &p,
        "top",
    ) || chars_are(&p, "htop") || chars_are(&p, "btop") || chars_are(&p, "lazygit") || chars_are(
        &p,
        "fzf",
    ) || chars_are(&p, "node") || chars_are(&p, "node.exe") || chars_are(&p, "bash") || chars_are(
        &p,
        "sh",
    ) || chars_are(&p, "zsh") || chars_are(&p, "cmd") || chars_are(&p, "cmd.exe") || chars_are(
        &p,
        "powershell",
    ) || chars_are(&p, "powershell.exe") || chars_are(&p, "pwsh") || chars_are(&p, "pwsh.exe")
}

/// Whether a trimmed line begins with the directive `#i`.
pub open spec fn flagged(t: Seq<char>) -> bool {
    &&& t.len() >= 2
    &&& t[0] == '#'
    &&& t[1] == 'i' || t[1] == 'I'
    &&& t.len() > 2 ==> is_space(t[2])
}

/// The command of a line without the directive `#i`, and whether it had one.
pub fn split_interactive_flag(raw: &str) -> (r: (String, bool))
    ensures
        r.1 == flagged(trim(raw@)),
        r.0@ == (if flagged(trim(raw@)) {
            trim_start(trim(raw@).skip(2))
        } else {
            trim(raw@)
        }),
{
    let t = trim_chars(&chars_of(raw));
    if t.len() >= 2 && t[0] == '#' && (t[1] == 'i' || t[1] == 'I') && (t.len() == 2 || space_char(
        t[2],
    )) {
        let rest = crate::text::trim_start_chars(&t, 2);
        (to_text(&rest), true)
    } else {
        (to_text(&t), false)
    }
}

// ── Keys and the pointer as bytes ────────────────────────────────────────────

/// `ESC [` and one byte.
pub open spec fn csi1(a: u8) -> Seq<u8> {
    seq![0x1bu8, 0x5bu8, a]
}

/// `ESC [`, a digit and `~`.
pub open spec fn csi2(a: u8) -> Seq<u8> {
    seq![0x1bu8, 0x5bu8, a, 0x7eu8]
}

/// `ESC [ 1 ;`, the modifier and one byte.
pub open spec fn csi4(m: u8, a: u8) -> Seq<u8> {
    seq![0x1bu8, 0x5bu8, 0x31u8, 0x3bu8, m, a]
}

/// The bytes that a terminal sends for a key; none for the keys of the desktop
/// alone. `back` is what it sends for the backspace key.
pub open spec fn key_code(key: Key, back: u8) -> Option<Seq<u8>> {
    match key {
        Key::Char(c) => Some(encode_utf8(seq![c])),
        Key::Enter => Some(seq![0x0du8]),
        Key::CtrlEnter => Some(seq![0x0du8]),
        Key::Tab => Some(seq![0x09u8]),
        Key::Backspace => Some(seq![back]),
        Key::Escape => Some(seq![0x1bu8]),
        Key::Delete => Some(csi2(0x33)),
        Key::PageUp => Some(csi2(0x35)),
        Key::PageDown => Some(csi2(0x36)),
        Key::Home => Some(csi1(0x48)),
        Key::End => Some(csi1(0x46)),
        Key::Up => Some(csi1(0x41)),
        Key::Down => Some(csi1(0x42)),
        Key::Right => Some(csi1(0x43)),
        Key::Left => Some(csi1(0x44)),
        Key::ShiftUp => Some(csi4(0x32, 0x41)),
        Key::ShiftDown => Some(csi4(0x32, 0x42)),
        Key::ShiftRight => Some(csi4(0x32, 0x43)),
        Key::ShiftLeft => Some(csi4(0x32, 0x44)),
        Key::AltUp => Some(csi4(0x33, 0x41)),
        Key::AltDown => Some(csi4(0x33, 0x42)),
        Key::AltRight => Some(csi4(0x33, 0x43)),
        Key::AltLeft => Some(csi4(0x33, 0x44)),
        Key::CtrlC => Some(seq![0x03u8]),
        Key::CtrlD => Some(seq![0x04u8]),
        Key::CtrlE => Some(seq![0x05u8]),
        Key::CtrlF => Some(seq![0x06u8]),
        Key::CtrlH => Some(seq![0x08u8]),
        Key::CtrlJ => Some(seq![0x0au8]),
        Key::CtrlK => Some(seq![0x0bu8]),
        Key::CtrlL => Some(seq![0x0cu8]),
        Key::CtrlN => Some(seq![0x0eu8]),
        Key::CtrlP => Some(seq![0x10u8]),
        Key::CtrlQ => Some(seq![0x11u8]),
        Key::CtrlT => Some(seq![0x14u8]),
        Key::CtrlV => Some(seq![0x16u8]),
        Key::CtrlW => Some(seq![0x17u8]),
        Key::CtrlX => Some(seq![0x18u8]),
        Key::CtrlZ => Some(seq![0x1au8]),
        _ => None,
    }
}

fn one(a: u8) -> (v: Option<Vec<u8>>)
    ensures
        v matches Some(b) && b@ == seq![a],
{
    let v: Vec<u8> = vec![a];
    assert(v@ =~= seq![a]);
    Some(v)
}

fn csi_byte(a: u8) -> (v: Option<Vec<u8>>)
    ensures
        v matches Some(b) && b@ == csi1(a),
{
    let v: Vec<u8> = vec![0x1b, 0x5b, a];
    assert(v@ =~= csi1(a));
    Some(v)
}

fn csi_digit(a: u8) -> (v: Option<Vec<u8>>)
    ensures
        v matches Some(b) && b@ == csi2(a),
{
    let v: Vec<u8> = vec![0x1b, 0x5b, a, 0x7e];
    assert(v@ =~= csi2(a));
    Some(v)
}

fn csi_modified(m: u8, a: u8) -> (v: Option<Vec<u8>>)
    ensures
        v matches Some(b) && b@ == csi4(m, a),
{
    let v: Vec<u8> = vec![0x1b, 0x5b, 0x31, 0x3b, m, a];
    assert(v@ =~= csi4(m, a));
    Some(v)
}

/// Whether optional bytes are what is specified.
pub open spec fn bytes_agree(v: Option<Vec<u8>>, s: Option<Seq<u8>>) -> bool {
    match (v, s) {
        (Some(b), Some(t)) => b@ == t,
        (None, None) => true,
        _ => false,
    }
}

fn encode_key(key: Key, back: u8) -> (v: Option<Vec<u8>>)
    ensures
        bytes_agree(v, key_code(key, back)),
{
    match key {
        Key::Char(c) => {
            let mut s = String::new();
            s.push(c);
            assert(s@ =~= seq![c]);
            Some(copy_bytes(s.as_str().as_bytes()))
        },
        Key::Enter => one(0x0d),
        Key::CtrlEnter => one(0x0d),
        Key::Tab => one(0x09),
        Key::Backspace => one(back),
        Key::Escape => one(0x1b),
        Key::Delete => csi_digit(0x33),
        Key::PageUp => csi_digit(0x35),
        Key::PageDown => csi_digit(0x36),
        Key::Home => csi_byte(0x48),
        Key::End => csi_byte(0x46),
        Key::Up => csi_byte(0x41),
        Key::Down => csi_byte(0x42),
        Key::Right => csi_byte(0x43),
        Key::Left => csi_byte(0x44),
        Key::ShiftUp => csi_modified(0x32, 0x41),
        Key::ShiftDown => csi_modified(0x32, 0x42),
        Key::ShiftRight => csi_modified(0x32, 0x43),
        Key::ShiftLeft => csi_modified(0x32, 0x44),
        Key::AltUp => csi_modified(0x33, 0x41),
        Key::AltDown => csi_modified(0x33, 0x42),
        Key::AltRight => csi_modified(0x33, 0x43),
        Key::AltLeft => csi_modified(0x33, 0x44),
        Key::CtrlC => one(0x03),
        Key::CtrlD => one(0x04),
        Key::CtrlE => one(0x05),
        Key::CtrlF => one(0x06),
        Key::CtrlH => one(0x08),
        Key::CtrlJ => one(0x0a),
        Key::CtrlK => one(0x0b),
        Key::CtrlL => one(0x0c),
        Key::CtrlN => one(0x0e),
        Key::CtrlP => one(0x10),
        Key::CtrlQ => one(0x11),
        Key::CtrlT => one(0x14),
        Key::CtrlV => one(0x16),
        Key::CtrlW => one(0x17),
        Key::CtrlX => one(0x18),
        Key::CtrlZ => one(0x1a),
        _ => None,
    }
}

/// The bytes that a Unix terminal sends for a key.
pub fn key_to_bytes(key: Key) -> (v: Option<Vec<u8>>)
    ensures
        bytes_agree(v, key_code(key, 0x7f)),
{
    encode_key(key, 0x7f)
}

/// The bytes that a Windows console takes for a key.
pub fn console_key_to_bytes(key: Key) -> (v: Option<Vec<u8>>)
    ensures
        bytes_agree(v, key_code(key, 0x08)),
{
    encode_key(key, 0x08)
}

/// Whether a key moves the cursor or the view and types nothing.
pub open spec fn navigates(key: Key) -> bool {
    match key {
        Key::Up => true,
        Key::Down => true,
        Key::Left => true,
        Key::Right => true,
        Key::ShiftUp => true,
        Key::ShiftDown => true,
        Key::ShiftLeft => true,
        Key::ShiftRight => true,
        Key::AltUp => true,
        Key::AltDown => true,
        Key::AltLeft => true,
        Key::AltRight => true,
        Key::Home => true,
        Key::End => true,
        Key::PageUp => true,
        Key::PageDown => true,
        Key::Delete => true,
        Key::CtrlDelete => true,
        _ => false,
    }
}

pub fn is_terminal_navigation(key: Key) -> (r: bool)
    ensures
        r == navigates(key),
{
    match key {
        Key::Up => true,
        Key::Down => true,
        Key::Left => true,
        Key::Right => true,
        Key::ShiftUp => true,
        Key::ShiftDown => true,
        Key::ShiftLeft => true,
        Key::ShiftRight => true,
        Key::AltUp => true,
        Key::AltDown => true,
        Key::AltLeft => true,
        Key::AltRight => true,
        Key::Home => true,
        Key::End => true,
        Key::PageUp => true,
        Key::PageDown => true,
        Key::Delete => true,
        Key::CtrlDelete => true,
        _ => false,
    }
}

/// The number of a pointer event: its button, the modifiers and whether it is a
/// movement.
pub open spec fn mouse_code(ev: MouseEvent) -> u16 {
    let code = match ev.button {
        MouseButton::Left => 0u16,
        MouseButton::Middle => 1u16,
        MouseButton::Right => 2u16,
        MouseButton::WheelUp => 64u16,
        MouseButton::WheelDown => 65u16,
    };
    let code = if ev.shift {
        code | 4
    } else {
        code
    };
    let code = if ev.alt {
        code | 8
    } else {
        code
    };
    let code = if ev.ctrl {
        code | 16
    } else {
        code
    };
    if ev.kind == MouseAction::Move || ev.kind == MouseAction::Drag {
        code | 64
    } else {
        code
    }
}

/// A pointer event as a terminal reports it.
pub open spec fn mouse_report(ev: MouseEvent) -> Seq<char> {
    "\u{1b}[<"@ + dec(mouse_code(ev) as nat) + ";"@ + dec(ev.x as nat) + ";"@ + dec(ev.y as nat)
        + (if ev.kind == MouseAction::Release {
        "m"@
    } else {
        "M"@
    })
}

/// A pointer event as the bytes that a terminal sends.
pub fn mouse_to_bytes(ev: MouseEvent) -> (v: Option<Vec<u8>>)
    ensures
        v matches Some(b) && b@ == encode_utf8(mouse_report(ev)),
{
    let mut code: u16 = match ev.button {
        MouseButton::Left => 0,
        MouseButton::Middle => 1,
        MouseButton::Right => 2,
        MouseButton::WheelUp => 64,
        MouseButton::WheelDown => 65,
    };
    if ev.shift {
        code = code | 4;
    }
    if ev.alt {
        code = code | 8;
    }
    if ev.ctrl {
        code = code | 16;
    }
    if ev.kind == MouseAction::Move || ev.kind == MouseAction::Drag {
        code = code | 64;
    }
    let mut s = "\u{1b}[<".to_owned();
    push_dec(&mut s, code as u128);
    s.append(";");
    push_dec(&mut s, ev.x as u128);
    s.append(";");
    push_dec(&mut s, ev.y as u128);
    s.append(
        if ev.kind == MouseAction::Release {
            "m"
        } else {
            "M"
        },
    );
    Some(copy_bytes(s.as_str().as_bytes()))
}

// ── The state of a terminal window ───────────────────────────────────────────

/// A running program that a terminal is connected with.
#[derive(Debug, Clone, Copy, PartialEq, Eq, Structural)]
pub struct ShellSession {
    /// The number of the program.
    pub id: usize,
    /// It is connected by a pseudo terminal, which echoes what is typed; by pipes,
    /// which do not, otherwise.
    pub real_pty: bool,
    /// It runs on a Windows console, where Backspace is another byte.
    pub console: bool,
}

/// How many lines of output a terminal keeps.
pub const MAX_SHELL_LINES: usize = 2000;

/// How many commands a terminal keeps.
pub const MAX_HISTORY: usize = 200;

/// How many lines typed on a pipe are kept.
pub const MAX_PIPE_HISTORY: usize = 100;

pub struct TerminalState {
    /// The session that typed input goes to.
    pub shell_session: Option<ShellSession>,
    /// The lines that the session has printed.
    pub shell_lines: Vec<String>,
    /// The grid of an interactive terminal.
    pub emulator: Option<Terminal>,
    /// Keys go to the session as they are, and the window shows the grid.
    pub interactive: bool,
    pub commands: Vec<CommandEntry>,
    pub cmd_input: String,
    pub input_cursor: usize,
    pub panel_scroll: usize,
    pub path: String,
    pub history_index: Option<usize>,
    pub history_draft: Option<String>,
    /// The prompt of a running REPL, which stands before the input.
    pub repl_prompt: Option<String>,
    /// The line being typed on a pipe: it is sent whole.
    pub pipe_line: Vec<u8>,
    /// Output behind the last line break.
    pub tail: String,
    /// The lines sent on a pipe.
    pub pipe_history: Vec<String>,
    pub pipe_hist_idx: Option<usize>,
    /// The line that was typed before an earlier one was recalled.
    pub pipe_draft: Option<String>,
}

#[verifier::ext_equal]
pub struct TermStateModel {
    pub session: Option<ShellSession>,
    pub shell_lines: Seq<Seq<char>>,
    pub emulator: Option<TermModel>,
    pub interactive: bool,
    pub commands: Seq<EntryModel>,
    pub cmd_input: Seq<char>,
    pub input_cursor: usize,
    pub panel_scroll: usize,
    pub path: Seq<char>,
    pub history_index: Option<usize>,
    pub history_draft: Option<Seq<char>>,
    pub repl_prompt: Option<Seq<char>>,
    pub pipe_line: Seq<u8>,
    pub tail: Seq<char>,
    pub pipe_history: Seq<Seq<char>>,
    pub pipe_hist_idx: Option<usize>,
    pub pipe_draft: Option<Seq<char>>,
}

/// The text of an optional string.
pub open spec fn text_of(s: Option<String>) -> Option<Seq<char>> {
    match s {
        Some(t) => Some(t@),
        None => None,
    }
}

impl View for TerminalState {
    type V = TermStateModel;

    open spec fn view(&self) -> TermStateModel {
        TermStateModel {
            session: self.shell_session,
            shell_lines: texts(self.shell_lines@),
            emulator: match self.emulator {
                Some(t) => Some(t@),
                None => None,
            },
            interactive: self.interactive,
            commands: entries(self.commands@),
            cmd_input: self.cmd_input@,
            input_cursor: self.input_cursor,
            panel_scroll: self.panel_scroll,
            path: self.path@,
            history_index: self.history_index,
            history_draft: text_of(self.history_draft),
            repl_prompt: text_of(self.repl_prompt),
            pipe_line: self.pipe_line@,
            tail: self.tail@,
            pipe_history: texts(self.pipe_history@),
            pipe_hist_idx: self.pipe_hist_idx,
            pipe_draft: text_of(self.pipe_draft),
        }
    }
}

/// The last `n` of a list.
pub open spec fn newest<T>(s: Seq<T>, n: int) -> Seq<T> {
    if s.len() > n {
        s.skip(s.len() - n)
    } else {
        s
    }
}

/// Drops all but the last `n`.
pub fn keep_newest<T>(v: &mut Vec<T>, n: usize)
    ensures
        final(v)@ == newest(old(v)@, n as int),
{
    let len: usize = v.len();
    if len > n {
        let tail = v.split_off(len - n);
        *v = tail;
        assert(v@ =~= newest(old(v)@, n as int));
    }
}

/// The bytes without their last character: its continuation bytes go with it.
pub open spec fn without_last_char(line: Seq<u8>) -> Seq<u8>
    decreases line.len(),
{
    if line.len() == 0 {
        line
    } else if is_continuation(line.last()) {
        without_last_char(line.drop_last())
    } else {
        line.drop_last()
    }
}

/// Whether a line of output is the prompt of a REPL: short, and `>` at its end.
pub open spec fn is_prompt(line: Seq<char>) -> bool {
    let t = trim(line);
    0 < t.len() <= 12 && t.last() == '>'
}

/// The lines that show the commands of a history with their output.
pub open spec fn seed_lines(commands: Seq<EntryModel>) -> Seq<Seq<char>>
    decreases commands.len(),
{
    if commands.len() == 0 {
        Seq::empty()
    } else {
        let front = seed_lines(commands.drop_last());
        let e = commands.last();
        let front = if trim(e.command).len() > 0 {
            front.push(e.command)
        } else {
            front
        };
        front + e.output_lines
    }
}

/// A command that is done, without output.
pub open spec fn plain_entry(cmd: Seq<char>, cwd: Seq<char>) -> EntryModel {
    EntryModel {
        command: trim(cmd),
        cwd,
        output_lines: Seq::empty(),
        status: CommandStatus::Complete,
        kind: kind_of(trim(cmd)),
        runner: None,
    }
}

/// Whether a session of pipes carries the terminal.
pub open spec fn on_pipe(s: Option<ShellSession>) -> bool {
    s matches Some(v) && !v.real_pty
}

impl TermStateModel {
    pub open spec fn wf(self) -> bool {
        &&& self.emulator matches Some(t) ==> t.wf()
        &&& self.pipe_hist_idx matches Some(i) ==> i < self.pipe_history.len()
        &&& self.pipe_history.len() <= MAX_PIPE_HISTORY
    }

    /// A terminal without a session.
    pub open spec fn fresh(path: Seq<char>, commands: Seq<EntryModel>) -> TermStateModel {
        TermStateModel {
            session: None,
            shell_lines: Seq::empty(),
            emulator: None,
            interactive: false,
            commands,
            cmd_input: Seq::empty(),
            input_cursor: 0,
            panel_scroll: 0,
            path,
            history_index: None,
            history_draft: None,
            repl_prompt: None,
            pipe_line: Seq::empty(),
            tail: Seq::empty(),
            pipe_history: Seq::empty(),
            pipe_hist_idx: None,
            pipe_draft: None,
        }
    }

    /// A terminal with a shell, which shows the history it begins with.
    pub open spec fn shell(
        path: Seq<char>,
        commands: Seq<EntryModel>,
        session: ShellSession,
    ) -> TermStateModel {
        TermStateModel {
            session: Some(session),
            shell_lines: seed_lines(commands),
            ..TermStateModel::fresh(path, commands)
        }
    }

    /// A terminal that a program fills.
    pub open spec fn program(path: Seq<char>, session: ShellSession) -> TermStateModel {
        TermStateModel {
            session: Some(session),
            emulator: Some(TermModel::fresh(80, 24)),
            interactive: true,
            ..TermStateModel::fresh(path, Seq::empty())
        }
    }

    /// Bytes shown in the grid.
    pub open spec fn shown(self, bytes: Seq<u8>) -> TermStateModel {
        TermStateModel {
            emulator: match self.emulator {
                Some(t) => Some(t.run(bytes)),
                None => None,
            },
            ..self
        }
    }

    pub open spec fn line_pushed(self, line: Seq<char>) -> TermStateModel {
        TermStateModel {
            shell_lines: newest(self.shell_lines.push(line), MAX_SHELL_LINES as int),
            ..self
        }
    }

    /// One line of output: a prompt is kept as such, any other line is shown.
    pub open spec fn ingested(self, line: Seq<char>) -> TermStateModel {
        if is_prompt(line) {
            TermStateModel { repl_prompt: Some(trim(line)), ..self }
        } else {
            self.line_pushed(line)
        }
    }

    pub open spec fn all_ingested(self, lines: Seq<Seq<char>>) -> TermStateModel
        decreases lines.len(),
    {
        if lines.len() == 0 {
            self
        } else {
            self.all_ingested(lines.drop_last()).ingested(lines.last())
        }
    }

    /// One event of the session.
    pub open spec fn event(self, e: TerminalEvent<()>) -> TermStateModel {
        match e {
            TerminalEvent::Output { bytes, .. } => TermStateModel {
                tail: self.tail + lossy_text(bytes@),
                ..self.shown(bytes@)
            },
            TerminalEvent::Exit { .. } => TermStateModel { repl_prompt: None, ..self },
        }
    }

    pub open spec fn events(self, e: Seq<TerminalEvent<()>>) -> TermStateModel
        decreases e.len(),
    {
        if e.len() == 0 {
            self
        } else {
            self.events(e.drop_last()).event(e.last())
        }
    }

    /// The complete lines of the output are taken in.
    pub open spec fn lines_taken(self) -> TermStateModel {
        let s = SplitModel { lines: Seq::empty(), rest: Seq::empty() }.run(self.tail);
        TermStateModel { tail: s.rest, ..self.all_ingested(s.lines) }
    }

    /// Output behind the last line break is taken in, once no more comes.
    pub open spec fn rest_taken(self, quiet: bool) -> TermStateModel {
        if quiet && trim(self.tail).len() > 0 {
            TermStateModel { tail: Seq::empty(), ..self.ingested(trim_end(self.tail)) }
        } else {
            self
        }
    }

    /// What the session gave since the last time.
    pub open spec fn session_ticked(self, e: Seq<TerminalEvent<()>>) -> TermStateModel {
        if self.session is None {
            self
        } else {
            self.events(e).lines_taken().rest_taken(!has_output(e))
        }
    }

    /// A line sent on a pipe is remembered, unless it repeats the one before.
    pub open spec fn remembered(self, line: Seq<char>) -> Seq<Seq<char>> {
        if line.len() > 0 && (self.pipe_history.len() == 0 || self.pipe_history.last() != line) {
            newest(self.pipe_history.push(line), MAX_PIPE_HISTORY as int)
        } else {
            self.pipe_history
        }
    }

    /// The line typed on a pipe has been sent.
    pub open spec fn flushed(self) -> TermStateModel {
        TermStateModel {
            pipe_history: self.remembered(trim(lossy_text(self.pipe_line))),
            pipe_line: Seq::empty(),
            pipe_hist_idx: None,
            pipe_draft: None,
            ..self
        }
    }

    /// The line typed on a pipe is replaced, on the screen too.
    pub open spec fn pipe_line_set(self, text: Seq<char>) -> TermStateModel {
        TermStateModel {
            pipe_line: encode_utf8(text),
            ..self.shown(seq![0x0du8, 0x1bu8, 0x5bu8, 0x32u8, 0x4bu8]).shown(encode_utf8(text))
        }
    }

    /// The line recalled by a step up or down in what was sent on the pipe.
    pub open spec fn recalled(self, up: bool) -> (TermStateModel, bool) {
        let n = self.pipe_history.len();
        if n == 0 {
            (self, false)
        } else {
            match self.pipe_hist_idx {
                None => if up {
                    (
                        TermStateModel {
                            pipe_draft: Some(lossy_text(self.pipe_line)),
                            pipe_hist_idx: Some((n - 1) as usize),
                            ..self
                        }.pipe_line_set(self.pipe_history.last()),
                        true,
                    )
                } else {
                    (self, false)
                },
                Some(i) => if up {
                    if i == 0 {
                        (self, false)
                    } else {
                        (
                            TermStateModel {
                                pipe_hist_idx: Some((i - 1) as usize),
                                ..self
                            }.pipe_line_set(self.pipe_history[i - 1]),
                            true,
                        )
                    }
                } else if i + 1 < n {
                    (
                        TermStateModel {
                            pipe_hist_idx: Some((i + 1) as usize),
                            ..self
                        }.pipe_line_set(self.pipe_history[i + 1]),
                        true,
                    )
                } else {
                    let draft = match self.pipe_draft {
                        Some(d) => d,
                        None => Seq::empty(),
                    };
                    (
                        TermStateModel {
                            pipe_hist_idx: None,
                            pipe_draft: None,
                            ..self
                        }.pipe_line_set(draft),
                        true,
                    )
                },
            }
        }
    }

    /// A line was typed: it is shown where nothing echoes it, kept in the
    /// history, and ends the REPL where it says so.
    pub open spec fn line_run(self, cmd: Seq<char>) -> TermStateModel {
        let m = if on_pipe(self.session) && trim(cmd).len() > 0 {
            self.line_pushed(trim(cmd))
        } else {
            self
        };
        let m = if trim(cmd).len() > 0 {
            TermStateModel {
                commands: newest(m.commands.push(plain_entry(cmd, m.path)), MAX_HISTORY as int),
                ..m
            }
        } else {
            m
        };
        if leaves_repl(cmd) {
            TermStateModel { repl_prompt: None, ..m }
        } else {
            m
        }
    }

    /// The grid has a new size.
    pub open spec fn grid_sized(self, cols: u16, rows: u16) -> TermStateModel {
        TermStateModel {
            emulator: match self.emulator {
                Some(t) => Some(
                    if t.cols != cols || t.rows != rows {
                        t.resized(cols, rows)
                    } else {
                        t
                    },
                ),
                None => None,
            },
            ..self
        }
    }
}

/// Whether any event is output.
pub open spec fn has_output(e: Seq<TerminalEvent<()>>) -> bool {
    exists|i: int| 0 <= i < e.len() && (#[trigger] e[i]) is Output
}

/// A line recalled and left again gives back what was typed: its bytes, where they
/// were text, and the place in the history.
#[verifier::spinoff_prover]
#[verifier::rlimit(50)]
pub proof fn lemma_recall_restores(m: TermStateModel)
    requires
        m.wf(),
        m.pipe_history.len() > 0,
        m.pipe_hist_idx is None,
        valid_utf8(m.pipe_line),
        lossy_text(m.pipe_line) == decode_utf8(m.pipe_line),
    ensures
        ({
            let up = m.recalled(true);
            let back = up.0.recalled(false);
            &&& up.1 && back.1
            &&& back.0.pipe_line == m.pipe_line
            &&& back.0.pipe_hist_idx is None
            &&& back.0.pipe_history == m.pipe_history
        }),
{
    let up = m.recalled(true).0;
    assert(up.pipe_hist_idx == Some((m.pipe_history.len() - 1) as usize));
    assert(up.pipe_history == m.pipe_history);
    assert(up.pipe_draft == Some(lossy_text(m.pipe_line)));
    vstd::utf8::decode_utf8_encode_utf8(m.pipe_line);
}

impl TerminalState {
    pub open spec fn wf(&self) -> bool {
        self@.wf()
    }

    pub fn new(path: String, commands: Vec<CommandEntry>) -> (t: TerminalState)
        ensures
            t@ == TermStateModel::fresh(path@, entries(commands@)),
            t.wf(),
    {
        let t = TerminalState {
            shell_session: None,
            shell_lines: Vec::new(),
            emulator: None,
            interactive: false,
            commands,
            cmd_input: String::new(),
            input_cursor: 0,
            panel_scroll: 0,
            path,
            history_index: None,
            history_draft: None,
            repl_prompt: None,
            pipe_line: Vec::new(),
            tail: String::new(),
            pipe_history: Vec::new(),
            pipe_hist_idx: None,
            pipe_draft: None,
        };
        assert(t@ =~= TermStateModel::fresh(path@, entries(commands@)));
        t
    }

    /// A terminal with a shell that was started.
    pub fn with_shell(path: String, commands: Vec<CommandEntry>, session: ShellSession) -> (t:
        TerminalState)
        ensures
            t@ == TermStateModel::shell(path@, entries(commands@), session),
            t.wf(),
    {
        let shell_lines = Self::seed_shell_lines(&commands);
        let mut t = TerminalState::new(path, commands);
        t.shell_session = Some(session);
        t.shell_lines = shell_lines;
        assert(t@ =~= TermStateModel::shell(path@, entries(commands@), session));
        t
    }

    /// An interactive terminal for a program that was started.
    pub fn with_program(path: String, session: ShellSession) -> (t: TerminalState)
        ensures
            t@ == TermStateModel::program(path@, session),
            t.wf(),
    {
        let commands: Vec<CommandEntry> = Vec::new();
        assert(entries(commands@) =~= Seq::empty());
        let mut t = TerminalState::new(path, commands);
        t.shell_session = Some(session);
        t.emulator = Some(Terminal::new(80, 24));
        t.interactive = true;
        assert(t@ =~= TermStateModel::program(path@, session));
        t
    }

    fn seed_shell_lines(commands: &[CommandEntry]) -> (lines: Vec<String>)
        ensures
            texts(lines@) == seed_lines(entries(commands@)),
    {
        let ghost all = entries(commands@);
        let mut lines: Vec<String> = Vec::new();
        let mut i: usize = 0;
        assert(all.take(0) =~= Seq::empty());
        assert(texts(lines@) =~= Seq::empty());
        while i < commands.len()
            invariant
                i <= commands@.len(),
                all == entries(commands@),
                texts(lines@) == seed_lines(all.take(i as int)),
            decreases commands@.len() - i,
        {
            assert(all.take(i + 1).drop_last() =~= all.take(i as int));
            assert(all.take(i + 1).last() == commands@[i as int]@);
            let e = &commands[i];
            if trim_chars(&chars_of(e.command.as_str())).len() > 0 {
                push_text(&mut lines, e.command.clone());
            }
            let mut more = clone_texts(&e.output_lines);
            let ghost front = lines@;
            lines.append(&mut more);
            assert(texts(lines@) =~= texts(front) + texts(e.output_lines@));
            i = i + 1;
        }
        assert(all.take(i as int) =~= all);
        lines
    }

    /// Shows bytes in the grid.
    fn show(&mut self, bytes: &[u8])
        requires
            old(self).wf(),
        ensures
            final(self)@ == old(self)@.shown(bytes@),
            final(self).wf(),
            final(self).emulator is Some == old(self).emulator is Some,
    {
        match self.emulator.take() {
            Some(t) => {
                let mut em = t;
                em.process(bytes);
                self.emulator = Some(em);
            },
            None => {},
        }
        assert(self@ =~= old(self)@.shown(bytes@));
    }

    /// Shows what is typed on a pipe, where nothing echoes it. The cell of an
    /// erased character becomes blank.
    pub fn mirror_input(&mut self, bytes: &[u8], backspace: bool)
        requires
            old(self).wf(),
        ensures
            final(self)@ == old(self)@.shown(
                if backspace {
                    seq![8u8, 32u8, 8u8]
                } else {
                    bytes@
                },
            ),
            final(self).wf(),
    {
        if backspace {
            let erase: [u8; 3] = [8, 32, 8];
            self.show(&erase);
            assert(erase@ =~= seq![8u8, 32u8, 8u8]);
        } else {
            self.show(bytes);
        }
    }

    fn looks_like_repl_prompt(line: &str) -> (r: bool)
        ensures
            r == is_prompt(line@),
    {
        let t = trim_chars(&chars_of(line));
        t.len() > 0 && t.len() <= 12 && t[t.len() - 1] == '>'
    }

    /// Collects what is typed on a pipe.
    pub fn pipe_feed(&mut self, bytes: &[u8])
        ensures
            final(self)@ == (TermStateModel {
                pipe_line: old(self)@.pipe_line + bytes@,
                ..old(self)@
            }),
    {
        let mut more = copy_bytes(bytes);
        self.pipe_line.append(&mut more);
        assert(self@ =~= TermStateModel {
            pipe_line: old(self)@.pipe_line + bytes@,
            ..old(self)@
        });
    }

    /// Takes back the last character typed on a pipe.
    pub fn pipe_backspace(&mut self)
        ensures
            final(self)@ == (TermStateModel {
                pipe_line: without_last_char(old(self)@.pipe_line),
                ..old(self)@
            }),
    {
        let ghost line = self.pipe_line@;
        while self.pipe_line.len() > 0 && is_continuation_byte(
            self.pipe_line[self.pipe_line.len() - 1],
        )
            invariant
                without_last_char(self.pipe_line@) == without_last_char(line),
                self@ == (TermStateModel { pipe_line: self.pipe_line@, ..old(self)@ }),
            decreases self.pipe_line@.len(),
        {
            let ghost before = self.pipe_line@;
            let _ = self.pipe_line.pop();
            assert(self.pipe_line@ =~= before.drop_last());
            assert(self@ =~= TermStateModel { pipe_line: self.pipe_line@, ..old(self)@ });
        }
        let ghost before = self.pipe_line@;
        let _ = self.pipe_line.pop();
        assert(before.len() > 0 ==> self.pipe_line@ =~= before.drop_last());
        assert(self@ =~= TermStateModel { pipe_line: without_last_char(line), ..old(self)@ });
    }

    /// Gives up the line typed on a pipe.
    pub fn pipe_cancel(&mut self)
        ensures
            final(self)@ == (TermStateModel {
                pipe_line: Seq::empty(),
                pipe_hist_idx: None,
                pipe_draft: None,
                ..old(self)@
            }),
    {
        self.pipe_line = Vec::new();
        self.reset_pipe_history();
        assert(self@ =~= TermStateModel {
            pipe_line: Seq::empty(),
            pipe_hist_idx: None,
            pipe_draft: None,
            ..old(self)@
        });
    }

    /// Leaves the history of the pipe.
    pub fn reset_pipe_history(&mut self)
        ensures
            final(self)@ == (TermStateModel {
                pipe_hist_idx: None,
                pipe_draft: None,
                ..old(self)@
            }),
    {
        self.pipe_hist_idx = None;
        self.pipe_draft = None;
    }

    /// Ends the line typed on a pipe. Gives what is to be sent, where there is a
    /// session: REPLs are started in their interactive form.
    pub fn pipe_flush(&mut self) -> (sent: Option<String>)
        requires
            old(self).wf(),
        ensures
            final(self)@ == old(self)@.flushed(),
            final(self).wf(),
            match sent {
                Some(t) => old(self)@.session is Some && t@ == interactive_form(
                    trim(lossy_text(old(self)@.pipe_line)),
                ) + "\r\n"@,
                None => old(self)@.session is None,
            },
    {
        let trimmed = trim_chars(&chars_of(lossy(&self.pipe_line).as_str()));
        let ghost history = texts(self.pipe_history@);
        let known = self.pipe_history.len() > 0 && same_chars(
            &trimmed,
            &chars_of(self.pipe_history[self.pipe_history.len() - 1].as_str()),
        );
        let line = to_text(&trimmed);
        if trimmed.len() > 0 && !known {
            push_text(&mut self.pipe_history, line.clone());
            let ghost longer = self.pipe_history@;
            keep_newest(&mut self.pipe_history, MAX_PIPE_HISTORY);
            assert(texts(self.pipe_history@) =~= newest(texts(longer), MAX_PIPE_HISTORY as int));
        }
        self.pipe_line = Vec::new();
        self.pipe_hist_idx = None;
        self.pipe_draft = None;
        assert(self@ =~= old(self)@.flushed());
        match self.shell_session {
            Some(_) => {
                let mut sent = interactive_command(line.as_str());
                sent.append("\r\n");
                Some(sent)
            },
            None => None,
        }
    }

    fn set_pipe_line(&mut self, text: &str)
        requires
            old(self).wf(),
        ensures
            final(self)@ == old(self)@.pipe_line_set(text@),
            final(self).wf(),
    {
        self.pipe_line = copy_bytes(text.as_bytes());
        let erase: [u8; 5] = [0x0d, 0x1b, 0x5b, 0x32, 0x4b];
        self.show(&erase);
        assert(erase@ =~= seq![0x0du8, 0x1bu8, 0x5bu8, 0x32u8, 0x4bu8]);
        self.show(text.as_bytes());
        assert(self@ =~= old(self)@.pipe_line_set(text@));
    }

    /// Recalls the line sent before (`up`) or after on the pipe; behind the newest
    /// comes what was being typed. Says whether the line changed.
    pub fn pipe_recall(&mut self, up: bool) -> (changed: bool)
        requires
            old(self).wf(),
        ensures
            (final(self)@, changed) == old(self)@.recalled(up),
            final(self).wf(),
    {
        let n: usize = self.pipe_history.len();
        if n == 0 {
            return false;
        }
        match self.pipe_hist_idx {
            None => {
                if !up {
                    return false;
                }
                self.pipe_draft = Some(lossy(&self.pipe_line));
                self.pipe_hist_idx = Some(n - 1);
                let line = self.pipe_history[n - 1].clone();
                assert(self@ =~= TermStateModel {
                    pipe_draft: Some(lossy_text(old(self)@.pipe_line)),
                    pipe_hist_idx: Some((n - 1) as usize),
                    ..old(self)@
                });
                self.set_pipe_line(line.as_str());
                true
            },
            Some(i) => {
                if up {
                    if i == 0 {
                        return false;
                    }
                    self.pipe_hist_idx = Some(i - 1);
                    let line = self.pipe_history[i - 1].clone();
                    assert(self@ =~= TermStateModel {
                        pipe_hist_idx: Some((i - 1) as usize),
                        ..old(self)@
                    });
                    self.set_pipe_line(line.as_str());
                } else if i + 1 < n {
                    self.pipe_hist_idx = Some(i + 1);
                    let line = self.pipe_history[i + 1].clone();
                    assert(self@ =~= TermStateModel {
                        pipe_hist_idx: Some((i + 1) as usize),
                        ..old(self)@
                    });
                    self.set_pipe_line(line.as_str());
                } else {
                    self.pipe_hist_idx = None;
                    let draft = match self.pipe_draft.take() {
                        Some(d) => d,
                        None => String::new(),
                    };
                    assert(self@ =~= TermStateModel {
                        pipe_hist_idx: None,
                        pipe_draft: None,
                        ..old(self)@
                    });
                    self.set_pipe_line(draft.as_str());
                }
                true
            },
        }
    }

    /// A line typed in a terminal with a shell. Gives what is to be sent, where
    /// there is a session.
    pub fn run_line(&mut self, cmd: &str) -> (sent: Option<String>)
        requires
            old(self).wf(),
        ensures
            final(self)@ == old(self)@.line_run(cmd@),
            final(self).wf(),
            match sent {
                Some(t) => old(self)@.session is Some && t@ == interactive_form(cmd@) + "\r\n"@,
                None => old(self)@.session is None,
            },
    {
        let trimmed = trim_chars(&chars_of(cmd));
        let piped = match self.shell_session {
            Some(v) => !v.real_pty,
            None => false,
        };
        if piped && trimmed.len() > 0 {
            self.push_shell_line(to_text(&trimmed));
        }
        let ghost m1 = self@;
        if trimmed.len() > 0 {
            let none: Vec<String> = Vec::new();
            assert(texts(none@) =~= Seq::empty());
            let e = CommandEntry::completed(cmd, self.path.as_str(), none);
            assert(e@ == plain_entry(cmd@, m1.path));
            let ghost before = self.commands@;
            self.commands.push(e);
            assert(entries(self.commands@) =~= entries(before).push(e@));
            let ghost longer = self.commands@;
            keep_newest(&mut self.commands, MAX_HISTORY);
            assert(entries(self.commands@) =~= newest(entries(longer), MAX_HISTORY as int));
        }
        if is_repl_exit(cmd) {
            self.clear_repl();
        }
        assert(self@ =~= old(self)@.line_run(cmd@));
        match self.shell_session {
            Some(_) => {
                let mut sent = interactive_command(cmd);
                sent.append("\r\n");
                Some(sent)
            },
            None => None,
        }
    }

    /// Takes in one line of output.
    pub fn ingest_output_line(&mut self, line: String) -> (changed: bool)
        ensures
            final(self)@ == old(self)@.ingested(line@),
            changed,
    {
        if Self::looks_like_repl_prompt(line.as_str()) {
            let t = to_text(&trim_chars(&chars_of(line.as_str())));
            self.repl_prompt = Some(t);
            assert(self@ =~= old(self)@.ingested(line@));
        } else {
            self.push_shell_line(line);
        }
        true
    }

    /// Forgets the prompt of a REPL.
    pub fn clear_repl(&mut self)
        ensures
            final(self)@ == (TermStateModel { repl_prompt: None, ..old(self)@ }),
    {
        self.repl_prompt = None;
        assert(self@ =~= TermStateModel { repl_prompt: None, ..old(self)@ });
    }

    /// Shows a line; the oldest go once there are too many.
    pub fn push_shell_line(&mut self, line: String)
        ensures
            final(self)@ == old(self)@.line_pushed(line@),
    {
        push_text(&mut self.shell_lines, line);
        let ghost longer = self.shell_lines@;
        keep_newest(&mut self.shell_lines, MAX_SHELL_LINES);
        assert(texts(self.shell_lines@) =~= newest(texts(longer), MAX_SHELL_LINES as int));
        assert(self@ =~= old(self)@.line_pushed(line@));
    }

    pub fn has_session(&self) -> (r: bool)
        ensures
            r == (self@.session is Some),
    {
        self.shell_session.is_some()
    }

    /// Gives the grid a new size. Says whether there is a session to be told.
    pub fn set_grid_size(&mut self, cols: u16, rows: u16) -> (told: bool)
        requires
            old(self).wf(),
        ensures
            final(self)@ == old(self)@.grid_sized(cols, rows),
            final(self).wf(),
            told == (old(self)@.session is Some),
    {
        match self.emulator.take() {
            Some(t) => {
                let mut em = t;
                if em.cols() != cols || em.rows() != rows {
                    em.resize(cols, rows);
                }
                self.emulator = Some(em);
            },
            None => {},
        }
        assert(self@ =~= old(self)@.grid_sized(cols, rows));
        self.shell_session.is_some()
    }

    fn apply_events(&mut self, events: &[TerminalEvent<()>]) -> (got: bool)
        requires
            old(self).wf(),
        ensures
            final(self)@ == old(self)@.events(events@),
            final(self).wf(),
            got == has_output(events@),
    {
        let mut got = false;
        let mut i: usize = 0;
        assert(events@.take(0) =~= Seq::empty());
        while i < events.len()
            invariant
                i <= events@.len(),
                self.wf(),
                self@ == old(self)@.events(events@.take(i as int)),
                got == exists|k: int| 0 <= k < i && (#[trigger] events@[k]) is Output,
            decreases events@.len() - i,
        {
            let ghost before = self@;
            assert(events@.take(i + 1).drop_last() =~= events@.take(i as int));
            assert(events@.take(i + 1).last() == events@[i as int]);
            match &events[i] {
                TerminalEvent::Output { bytes, .. } => {
                    self.show(bytes);
                    let text = lossy(bytes);
                    self.tail.append(text.as_str());
                    got = true;
                },
                TerminalEvent::Exit { .. } => {
                    self.repl_prompt = None;
                },
            }
            assert(self@ =~= before.event(events@[i as int]));
            i = i + 1;
        }
        assert(events@.take(i as int) =~= events@);
        got
    }

    fn take_lines(&mut self) -> (changed: bool)
        requires
            old(self).wf(),
        ensures
            final(self)@ == old(self)@.lines_taken(),
            final(self).wf(),
            changed == (SplitModel { lines: Seq::empty(), rest: Seq::empty() }.run(
                old(self)@.tail,
            ).lines.len() > 0),
    {
        let mut splitter = LineSplitter::new();
        let lines = splitter.feed(self.tail.as_str());
        let ghost all = texts(lines@);
        let ghost s = SplitModel { lines: Seq::empty(), rest: Seq::empty() }.run(self.tail@);
        let mut i: usize = 0;
        assert(all.take(0) =~= Seq::empty());
        while i < lines.len()
            invariant
                i <= lines@.len(),
                all == texts(lines@),
                self.wf(),
                self@ == old(self)@.all_ingested(all.take(i as int)),
            decreases lines@.len() - i,
        {
            assert(all.take(i + 1).drop_last() =~= all.take(i as int));
            assert(all.take(i + 1).last() == lines@[i as int]@);
            let line = lines[i].clone();
            let _ = self.ingest_output_line(line);
            i = i + 1;
        }
        assert(all.take(i as int) =~= all);
        assert(s.lines == all);
        self.tail = splitter.rest_text();
        assert(self@ =~= old(self)@.lines_taken());
        lines.len() > 0
    }

    fn take_rest(&mut self, quiet: bool) -> (changed: bool)
        requires
            old(self).wf(),
        ensures
            final(self)@ == old(self)@.rest_taken(quiet),
            final(self).wf(),
            changed == (quiet && trim(old(self)@.tail).len() > 0),
    {
        if !quiet {
            return false;
        }
        let v = chars_of(self.tail.as_str());
        if trim_chars(&v).len() == 0 {
            return false;
        }
        let part = crate::text::trim_end_chars(&v);
        let _ = self.ingest_output_line(to_text(&part));
        self.tail = String::new();
        assert(self@ =~= old(self)@.rest_taken(quiet));
        true
    }

    /// Takes in what the commands and the session gave since the last time. Says
    /// whether anything changed.
    pub fn tick(&mut self, polls: &[Poll], events: &[TerminalEvent<()>]) -> (changed: bool)
        requires
            old(self).wf(),
            polls@.len() == old(self)@.commands.len(),
        ensures
            final(self).wf(),
            final(self)@ == old(self)@.commands_ticked(polls@).session_ticked(events@),
            changed == old(self)@.tick_changes(polls@, events@),
    {
        let ghost given = old(self)@.commands;
        let mut changed = tick_all(&mut self.commands, polls);
        assert(self@ =~= old(self)@.commands_ticked(polls@));
        proof {
            assert forall|i: int| 0 <= i < polls@.len() implies #[trigger] ticks(given[i], polls@[i])
                == ticks(old(self).commands@[i]@, polls@[i]) by {}
            if changed {
                let i = choose|i: int|
                    0 <= i < polls@.len() && #[trigger] ticks(old(self).commands@[i]@, polls@[i]);
                assert(ticks(given[i], polls@[i]));
            }
        }
        if self.shell_session.is_some() {
            let got = self.apply_events(events);
            let taken = self.take_lines();
            let rest = self.take_rest(!got);
            changed = changed || got || taken || rest;
        }
        changed
    }
}

impl TermStateModel {
    /// What came from the processes of the commands.
    pub open spec fn commands_ticked(self, polls: Seq<Poll>) -> TermStateModel {
        TermStateModel {
            commands: Seq::new(
                self.commands.len(),
                |i: int|
                    self.commands[i].ticked(
                        texts(polls[i].lines@),
                        polls[i].exit_code,
                        polls[i].closed,
                    ),
            ),
            ..self
        }
    }

    /// Whether a tick changes anything that is shown.
    pub open spec fn tick_changes(self, polls: Seq<Poll>, e: Seq<TerminalEvent<()>>) -> bool {
        ||| exists|i: int| 0 <= i < polls.len() && #[trigger] ticks(self.commands[i], polls[i])
        ||| self.session is Some && {
            let m = self.commands_ticked(polls).events(e);
            ||| has_output(e)
            ||| SplitModel { lines: Seq::empty(), rest: Seq::empty() }.run(m.tail).lines.len() > 0
            ||| !has_output(e) && trim(m.lines_taken().tail).len() > 0
        }
    }
}

fn is_continuation_byte(b: u8) -> (r: bool)
    ensures
        r == is_continuation(b),
{
    0x80 <= b && b < 0xc0
}

} // verus!

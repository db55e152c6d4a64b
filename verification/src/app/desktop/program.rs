//! Keys for interactive programs.
use vstd::prelude::*;
use vstd::string::*;
use vstd::utf8::encode_utf8;
use crate::app::desktop::mouse::cell_of;
use crate::app::desktop::{
    find_window, terminal_mut, terminal_of, window_of, with_terminal, Ask, AskModel, DeskModel,
    Desktop, Outcome, OutcomeModel,
};
use crate::app::terminal::{
    bytes_agree, console_key_to_bytes, copy_bytes, interactive_form, is_terminal_navigation,
    key_code, key_to_bytes, navigates, ShellSession, without_last_char,
    TermStateModel, TerminalState,
};
use crate::app::apps;
use crate::os::Key;
use crate::text::{is_empty, lossy_text, trim};
use crate::wm::{covers, covers_cell, Mode, ModeModel};

verus! {

/// The bytes of a key for a session.
pub open spec fn session_key(s: ShellSession, key: Key) -> Option<Seq<u8>> {
    key_code(
        key,
        if s.console {
            0x08
        } else {
            0x7f
        },
    )
}

/// What Enter shows.
pub open spec fn line_break() -> Seq<u8> {
    seq![0x0du8, 0x0au8]
}

/// The bytes of a key on a pipe: keys that only move mean nothing there.
#[verifier::opaque]
pub open spec fn plain_bytes(key: Key) -> Option<Seq<u8>> {
    if navigates(key) {
        None
    } else {
        key_code(key, 0x7f)
    }
}

fn plain_key(key: Key) -> (v: Option<Vec<u8>>)
    ensures
        bytes_agree(v, plain_bytes(key)),
{
    reveal(plain_bytes);
    if is_terminal_navigation(key) {
        None
    } else {
        key_to_bytes(key)
    }
}

fn key_for(s: ShellSession, key: Key) -> (v: Option<Vec<u8>>)
    ensures
        bytes_agree(v, session_key(s, key)),
{
    if s.console {
        console_key_to_bytes(key)
    } else {
        key_to_bytes(key)
    }
}

impl TermStateModel {
    /// A key typed on a pipe: it is echoed and edited here.
    pub open spec fn piped(self, key: Key) -> TermStateModel {
        match key {
            Key::Up => self.recalled(true).0,
            Key::Down => self.recalled(false).0,
            Key::Enter | Key::CtrlEnter => self.shown(line_break()).flushed(),
            Key::Backspace => self.pipe_erased(),
            Key::CtrlC => self.pipe_dropped(),
            _ => self.pipe_typed(plain_bytes(key)),
        }
    }

    /// The line typed on a pipe, as it is sent.
    pub open spec fn pipe_text(self) -> Seq<u8> {
        encode_utf8(interactive_form(trim(lossy_text(self.pipe_line))) + "\r\n"@)
    }

    /// The line typed on a pipe given up.
    pub open spec fn pipe_dropped(self) -> TermStateModel {
        TermStateModel {
            pipe_line: Seq::empty(),
            pipe_hist_idx: None,
            pipe_draft: None,
            ..self.shown(line_break())
        }
    }

    /// Bytes typed on a pipe.
    pub open spec fn pipe_typed(self, bytes: Option<Seq<u8>>) -> TermStateModel {
        match bytes {
            Some(b) => {
                let t = TermStateModel { pipe_hist_idx: None, pipe_draft: None, ..self }.shown(b);
                TermStateModel { pipe_line: t.pipe_line + b, ..t }
            },
            None => self,
        }
    }

    /// The last character typed on a pipe erased.
    pub open spec fn pipe_erased(self) -> TermStateModel {
        let t = self.shown(seq![8u8, 32u8, 8u8]);
        TermStateModel {
            pipe_line: without_last_char(t.pipe_line),
            pipe_hist_idx: None,
            pipe_draft: None,
            ..t
        }
    }

    /// What a key typed on a pipe sends: Enter sends the line.
    pub open spec fn pipe_sends(self, key: Key) -> Option<Seq<u8>> {
        if self.session is Some && (key == Key::Enter || key == Key::CtrlEnter) {
            Some(self.pipe_text())
        } else {
            None
        }
    }

    /// A text pasted on a pipe.
    pub open spec fn pipe_pasted(self, text: Seq<char>) -> TermStateModel {
        let t = self.shown(encode_utf8(text));
        TermStateModel { pipe_line: t.pipe_line + encode_utf8(text), ..t }
    }

    /// Whether a pseudo terminal carries the terminal.
    pub open spec fn on_pty(self) -> bool {
        self.session matches Some(s) && s.real_pty
    }
}

fn type_bytes(t: &mut TerminalState, bytes: Option<Vec<u8>>)
    requires
        old(t).wf(),
    ensures
        match bytes {
            Some(b) => final(t)@ == old(t)@.pipe_typed(Some(b@)),
            None => final(t)@ == old(t)@,
        },
        final(t).wf(),
{
    match bytes {
        Some(b) => {
            t.reset_pipe_history();
            t.mirror_input(&b, false);
            t.pipe_feed(&b);
            assert(t@ =~= old(t)@.pipe_typed(Some(b@)));
        },
        None => {},
    }
}

fn erase_on_pipe(t: &mut TerminalState)
    requires
        old(t).wf(),
    ensures
        final(t)@ == old(t)@.pipe_erased(),
        final(t).wf(),
{
    t.mirror_input(&[], true);
    t.pipe_backspace();
    t.reset_pipe_history();
    assert(t@ =~= old(t)@.pipe_erased());
}

fn enter_on_pipe(t: &mut TerminalState) -> (sent: Option<String>)
    requires
        old(t).wf(),
    ensures
        final(t)@ == old(t)@.shown(line_break()).flushed(),
        final(t).wf(),
        match sent {
            Some(s) => old(t)@.session is Some && encode_utf8(s@) == old(t)@.pipe_text(),
            None => old(t)@.session is None,
        },
{
    let end: [u8; 2] = [0x0d, 0x0a];
    assert(end@ =~= line_break());
    t.mirror_input(&end, false);
    t.pipe_flush()
}

fn cancel_on_pipe(t: &mut TerminalState)
    requires
        old(t).wf(),
    ensures
        final(t)@ == old(t)@.pipe_dropped(),
        final(t).wf(),
{
    let end: [u8; 2] = [0x0d, 0x0a];
    assert(end@ =~= line_break());
    t.mirror_input(&end, false);
    t.pipe_cancel();
}

fn type_on_pipe(t: &mut TerminalState, key: Key) -> (sent: Option<String>)
    requires
        old(t).wf(),
    ensures
        final(t)@ == old(t)@.piped(key),
        final(t).wf(),
        match (sent, old(t)@.pipe_sends(key)) {
            (Some(s), Some(b)) => encode_utf8(s@) == b,
            (None, None) => true,
            _ => false,
        },
{
    match key {
        Key::Up => {
            t.pipe_recall(true);
            None
        },
        Key::Down => {
            t.pipe_recall(false);
            None
        },
        Key::Enter | Key::CtrlEnter => enter_on_pipe(t),
        Key::Backspace => {
            erase_on_pipe(t);
            None
        },
        Key::CtrlC => {
            cancel_on_pipe(t);
            None
        },
        _ => {
            type_bytes(t, plain_key(key));
            None
        },
    }
}

impl DeskModel {
    /// A key passed on to the program of terminal `i`.
    pub open spec fn key_forwarded(self, i: usize, key: Key) -> DeskModel {
        match terminal_of(self.apps, i) {
            Some(t) => if t.on_pty() {
                match session_key(t.session->0, key) {
                    Some(b) => self.wrote(t, b),
                    None => self,
                }
            } else {
                let s = self.with_terminal(i, t.piped(key));
                match t.pipe_sends(key) {
                    Some(b) => s.wrote(t, b),
                    None => s,
                }
            },
            None => self,
        }
    }

    /// A text pasted into terminal `i`.
    pub open spec fn pasted(self, i: usize, text: Seq<char>) -> DeskModel {
        match terminal_of(self.apps, i) {
            Some(t) => if text.len() == 0 {
                self
            } else if t.on_pty() {
                self.wrote(t, encode_utf8(text))
            } else {
                self.with_terminal(i, t.pipe_pasted(text))
            },
            None => self,
        }
    }

    /// A key while the program of terminal `i` has the focus.
    pub open spec fn program_key(self, i: usize, key: Key, now: u64) -> (DeskModel, OutcomeModel) {
        match key {
            Key::Escape | Key::End => (self.left(), OutcomeModel::Done(true)),
            Key::PageUp => (self.panel_moved(i, true), OutcomeModel::Done(true)),
            Key::PageDown => (self.panel_moved(i, false), OutcomeModel::Done(true)),
            Key::CtrlV => (self, OutcomeModel::Ask(AskModel::Paste { app_idx: i })),
            Key::Mouse(ev) => {
                let (x, y) = cell_of(ev);
                if window_of(self.apps, i) matches Some(w) && covers(w, x, y) {
                    (self.mouse_forwarded(i, ev), OutcomeModel::Done(true))
                } else {
                    DeskModel { mode: ModeModel::Normal, ..self }.moused(ev, now)
                }
            },
            _ => (self.key_forwarded(i, key), OutcomeModel::Done(true)),
        }
    }
}

impl Desktop {
    fn session_of(&self, app_idx: usize) -> (r: Option<ShellSession>)
        ensures
            r == (match terminal_of(self@.apps, app_idx) {
                Some(t) => t.session,
                None => None,
            }),
    {
        if app_idx < self.applications.len() {
            assert(self@.apps[app_idx as int] == self.applications@[app_idx as int]@);
            match &self.applications[app_idx].terminal {
                Some(t) => t.shell_session,
                None => None,
            }
        } else {
            None
        }
    }

    /// Passes a key on to the program of a terminal.
    pub fn forward_interactive(&mut self, app_idx: usize, key: Key) -> (changed: bool)
        requires
            old(self).wf(),
        ensures
            final(self)@ == old(self)@.key_forwarded(app_idx, key),
            changed,
            final(self).wf(),
    {
        let session = self.session_of(app_idx);
        match session {
            Some(s) => {
                if s.real_pty {
                    match key_for(s, key) {
                        Some(bytes) => self.write(s.id, bytes),
                        None => {},
                    }
                    return true;
                }
            },
            None => {},
        }
        let mut sent: Option<String> = None;
        match terminal_mut(&mut self.applications, app_idx) {
            Some(t) => {
                sent = type_on_pipe(t, key);
            },
            None => {
                assert(self@ =~= old(self)@);
                return true;
            },
        }
        let ghost t = terminal_of(old(self)@.apps, app_idx)->0;
        assert(self@ =~= old(self)@.with_terminal(app_idx, t.piped(key)));
        match (sent, session) {
            (Some(text), Some(s)) => {
                let bytes = copy_bytes(text.as_str().as_bytes());
                self.write(s.id, bytes);
            },
            _ => {},
        }
        true
    }

    /// Pastes a text into a terminal: that of the clipboard outside, else what was
    /// copied last.
    pub fn paste(&mut self, app_idx: usize, outside: Option<String>) -> (changed: bool)
        requires
            old(self).wf(),
        ensures
            final(self)@ == old(self)@.pasted(
                app_idx,
                match outside {
                    Some(s) => s@,
                    None => old(self)@.clipboard,
                },
            ),
            changed,
            final(self).wf(),
    {
        let text = match self.read_clipboard(outside) {
            Some(t) => t,
            None => {
                return true;
            },
        };
        if is_empty(text.as_str()) {
            return true;
        }
        let bytes = copy_bytes(text.as_str().as_bytes());
        match self.session_of(app_idx) {
            Some(s) => {
                if s.real_pty {
                    self.write(s.id, bytes);
                    return true;
                }
            },
            None => {},
        }
        match terminal_mut(&mut self.applications, app_idx) {
            Some(t) => {
                let ghost m = t@;
                t.mirror_input(&bytes, false);
                t.pipe_feed(&bytes);
                assert(t@ =~= m.pipe_pasted(text@));
            },
            None => {},
        }
        assert(self@ =~= old(self)@.pasted(app_idx, text@));
        true
    }

    /// Takes a key while the program of a terminal has the focus.
    pub fn key_interactive(&mut self, app_idx: usize, key: Key, now: u64) -> (r: Outcome)
        requires
            old(self).wf(),
        ensures
            (final(self)@, r@) == old(self)@.program_key(app_idx, key, now),
            final(self).wf(),
    {
        match key {
            Key::Escape | Key::End => {
                self.leave();
                Outcome::Done(true)
            },
            Key::PageUp => {
                self.move_panel(app_idx, true);
                Outcome::Done(true)
            },
            Key::PageDown => {
                self.move_panel(app_idx, false);
                Outcome::Done(true)
            },
            Key::CtrlV => Outcome::Ask(Ask::Paste { app_idx }),
            Key::Mouse(ev) => {
                let inside = match find_window(&self.applications, app_idx) {
                    Some(w) => covers_cell(&w, ev.x.saturating_sub(1), ev.y.saturating_sub(1)),
                    None => false,
                };
                if inside {
                    self.forward_mouse(app_idx, ev);
                    return Outcome::Done(true);
                }
                self.mode = Mode::Normal;
                assert(self@ =~= (DeskModel { mode: ModeModel::Normal, ..old(self)@ }));
                self.handle_mouse(ev, now)
            },
            _ => {
                self.forward_interactive(app_idx, key);
                Outcome::Done(true)
            },
        }
    }
}

/// On a pseudo terminal keys go out as they are, and the terminal itself does not
/// change.
pub proof fn lemma_pty_passes_keys(d: DeskModel, i: usize, key: Key)
    requires
        terminal_of(d.apps, i) matches Some(t) && t.on_pty(),
    ensures
        d.key_forwarded(i, key).apps == d.apps,
        session_key(terminal_of(d.apps, i)->0.session->0, key) matches Some(b)
            ==> d.key_forwarded(i, key).outbox == d.outbox.push(
            crate::app::desktop::EffectModel::Write {
                session: (terminal_of(d.apps, i)->0.session->0).id,
                bytes: b,
            },
        ),
{
}

} // verus!

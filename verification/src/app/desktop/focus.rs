//! Keys for terminals that take lines.
use vstd::prelude::*;
use vstd::string::*;
use crate::app::desktop::edit::{edit_line, line_view, LineModel};
use crate::app::desktop::{
    terminal_mut, terminal_of, with_terminal, Ask, AskModel, DeskModel, Desktop, Effect,
    EffectModel, Outcome, OutcomeModel,
};
use crate::app::terminal::{TermStateModel, TerminalState};
use crate::app::apps;
use crate::cmd::{entries, kind_of, CommandEntry, CommandKind, CommandStatus, EntryModel};
use crate::input::{autocomplete_input, completion, is_token, place};
use crate::os::Key;
use crate::text::{push_line, texts, trim};

verus! {

/// Whether a command is a process that runs.
pub open spec fn runs(e: EntryModel) -> bool {
    e.status == CommandStatus::Running && e.kind == CommandKind::External
}

/// The last of the first `n` commands that runs.
pub open spec fn last_running(c: Seq<EntryModel>, n: int) -> Option<int>
    decreases n,
{
    if n <= 0 {
        None
    } else if runs(c[n - 1]) {
        Some(n - 1)
    } else {
        last_running(c, n - 1)
    }
}

/// What stands in the list for an interruption.
pub open spec fn interruption(cwd: Seq<char>) -> EntryModel {
    EntryModel {
        command: trim("^C"@),
        cwd,
        output_lines: seq![""@],
        status: CommandStatus::Complete,
        kind: kind_of(trim("^C"@)),
        runner: None,
    }
}

impl TermStateModel {
    /// The line being typed.
    pub open spec fn line(self) -> LineModel {
        LineModel {
            input: self.cmd_input,
            cursor: self.input_cursor,
            index: self.history_index,
            draft: self.history_draft,
        }
    }

    pub open spec fn with_line(self, l: LineModel) -> TermStateModel {
        TermStateModel {
            cmd_input: l.input,
            input_cursor: l.cursor,
            history_index: l.index,
            history_draft: l.draft,
            ..self
        }
    }

    /// The word that `start..end` bounds completed, and whether it changed.
    pub open spec fn word_completed(
        self,
        start: int,
        end: int,
        suggestions: Seq<Seq<char>>,
    ) -> (TermStateModel, bool) {
        match completion(self.cmd_input.subrange(start, end), start == 0, suggestions) {
            Some(t) => (
                TermStateModel {
                    cmd_input: self.cmd_input.take(start) + t + self.cmd_input.skip(end),
                    input_cursor: (start + t.len()) as usize,
                    ..self
                },
                true,
            ),
            None => (self, false),
        }
    }
}

impl DeskModel {
    /// A key of the shell alone: the start of the line, and the two ends of input.
    pub open spec fn shell_key(self, i: usize, key: Key) -> (DeskModel, OutcomeModel) {
        let t = terminal_of(self.apps, i)->0;
        let ended = TermStateModel { repl_prompt: None, ..t };
        match key {
            Key::Home if t.session is Some => (
                self.with_terminal(i, TermStateModel { input_cursor: 0, ..t }),
                OutcomeModel::Done(true),
            ),
            Key::CtrlD if t.session is Some => (
                self.with_terminal(i, ended).wrote(t, seq![4u8]),
                OutcomeModel::Done(true),
            ),
            Key::CtrlZ if t.session is Some => (
                self.with_terminal(i, ended).wrote(t, seq![26u8]),
                OutcomeModel::Done(true),
            ),
            _ => (self, OutcomeModel::Done(false)),
        }
    }

    /// A key while terminal `i` has the focus.
    pub open spec fn focus_key(self, i: usize, key: Key) -> (DeskModel, OutcomeModel) {
        match key {
            Key::Escape | Key::End => (self.left(), OutcomeModel::Done(true)),
            Key::Enter => self.line_entered(i),
            Key::PageUp => (
                self.panel_moved(i, true),
                OutcomeModel::Done(terminal_of(self.apps, i) is Some),
            ),
            Key::PageDown => (
                self.panel_moved(i, false),
                OutcomeModel::Done(terminal_of(self.apps, i) is Some),
            ),
            _ => match terminal_of(self.apps, i) {
                None => (self, OutcomeModel::Done(false)),
                Some(t) => if key == Key::Tab {
                    (
                        self.with_terminal(i, t.with_line(t.line().fresh())),
                        OutcomeModel::Ask(AskModel::CompleteTerminal { app_idx: i }),
                    )
                } else {
                    match t.line().edited(t.commands, key) {
                        Some((l, b)) => (
                            self.with_terminal(i, t.with_line(l)),
                            OutcomeModel::Done(b),
                        ),
                        None => self.shell_key(i, key),
                    }
                },
            },
        }
    }

    /// What runs in terminal `i` interrupted: the session is told, or the last
    /// running command ends.
    pub open spec fn interrupted(self, i: usize) -> (DeskModel, bool) {
        match terminal_of(self.apps, i) {
            None => (self, false),
            Some(t) => if t.session is Some {
                (self.wrote(t, seq![3u8]), true)
            } else {
                match last_running(t.commands, t.commands.len() as int) {
                    Some(k) => {
                        let s = self.with_terminal(
                            i,
                            TermStateModel {
                                commands: t.commands.push(interruption(t.path)),
                                ..t
                            },
                        );
                        (
                            match t.commands[k].runner {
                                Some(runner) => s.emitted(EffectModel::Stop { runner }),
                                None => s,
                            },
                            true,
                        )
                    },
                    None => (self, false),
                }
            },
        }
    }
}

fn find_running(commands: &Vec<CommandEntry>) -> (r: Option<usize>)
    ensures
        match r {
            Some(k) => last_running(entries(commands@), commands@.len() as int) == Some(k as int)
                && k < commands@.len(),
            None => last_running(entries(commands@), commands@.len() as int) is None,
        },
{
    let ghost all = entries(commands@);
    let mut n: usize = commands.len();
    while n > 0
        invariant
            n <= commands@.len(),
            all == entries(commands@),
            last_running(all, commands@.len() as int) == last_running(all, n as int),
        decreases n,
    {
        assert(all[n - 1] == commands@[n - 1]@);
        if commands[n - 1].is_running_external() {
            return Some(n - 1);
        }
        n = n - 1;
    }
    None
}

/// Puts the mark of an interruption behind the commands.
fn push_interruption(t: &mut TerminalState)
    requires
        old(t).wf(),
    ensures
        final(t)@ == (TermStateModel {
            commands: old(t)@.commands.push(interruption(old(t)@.path)),
            ..old(t)@
        }),
        final(t).wf(),
{
    let mut out: Vec<String> = Vec::new();
    push_line(&mut out, "");
    assert(texts(out@) =~= seq![""@]);
    let e = CommandEntry::completed("^C", t.path.as_str(), out);
    let ghost m = e@;
    assert(m =~= interruption(t@.path));
    t.commands.push(e);
    assert(entries(t.commands@) =~= old(t)@.commands.push(m));
    assert(t@ =~= (TermStateModel { commands: old(t)@.commands.push(m), ..old(t)@ }));
}

/// What a key did to a terminal that takes lines.
enum Did {
    Nothing,
    Asks,
    Changed(bool),
}

fn edit_terminal(t: &mut TerminalState, key: Key) -> (r: Did)
    requires
        old(t).wf(),
        key != Key::Tab,
    ensures
        final(t).wf(),
        match old(t)@.line().edited(old(t)@.commands, key) {
            Some((l, b)) => final(t)@ == old(t)@.with_line(l) && r == Did::Changed(b),
            None => final(t)@ == old(t)@ && r == Did::Nothing,
        },
{
    assert(t@.line() =~= line_view(t.cmd_input, t.input_cursor, t.history_index, t.history_draft));
    let edited = edit_line(
        &t.commands,
        &mut t.cmd_input,
        &mut t.input_cursor,
        &mut t.history_index,
        &mut t.history_draft,
        key,
    );
    proof {
        match old(t)@.line().edited(old(t)@.commands, key) {
            Some((l, b)) => {
                assert(t@ =~= old(t)@.with_line(l));
            },
            None => {
                assert(t@ =~= old(t)@);
            },
        }
    }
    match edited {
        Some(b) => Did::Changed(b),
        None => Did::Nothing,
    }
}

impl Desktop {
    fn key_of_shell(&mut self, app_idx: usize, key: Key) -> (r: Outcome)
        requires
            old(self).wf(),
            terminal_of(old(self)@.apps, app_idx) is Some,
        ensures
            (final(self)@, r@) == old(self)@.shell_key(app_idx, key),
            final(self).wf(),
    {
        let ghost d = self@;
        let ghost t0 = terminal_of(d.apps, app_idx)->0;
        let mut sent: Option<(usize, u8)> = None;
        let mut changed = false;
        match terminal_mut(&mut self.applications, app_idx) {
            Some(t) => match t.shell_session {
                Some(s) => match key {
                    Key::Home => {
                        t.input_cursor = 0;
                        changed = true;
                        assert(t@ =~= (TermStateModel { input_cursor: 0, ..t0 }));
                    },
                    Key::CtrlD => {
                        t.clear_repl();
                        sent = Some((s.id, 4));
                        changed = true;
                    },
                    Key::CtrlZ => {
                        t.clear_repl();
                        sent = Some((s.id, 26));
                        changed = true;
                    },
                    _ => {},
                },
                None => {},
            },
            None => {},
        }
        proof {
            if !changed {
                assert(with_terminal(d.apps, app_idx as int, t0) =~= d.apps);
                assert(self@ =~= d);
            } else if sent is Some {
                assert(self@ =~= d.with_terminal(
                    app_idx,
                    TermStateModel { repl_prompt: None, ..t0 },
                ));
            } else {
                assert(self@ =~= d.with_terminal(
                    app_idx,
                    TermStateModel { input_cursor: 0, ..t0 },
                ));
            }
        }
        match sent {
            Some((session, b)) => {
                let mut bytes: Vec<u8> = Vec::new();
                bytes.push(b);
                assert(bytes@ =~= seq![b]);
                self.write(session, bytes);
            },
            None => {},
        }
        Outcome::Done(changed)
    }

    /// Takes a key while a terminal has the focus.
    pub fn key_terminal_focus(&mut self, key: Key, app_idx: usize) -> (r: Outcome)
        requires
            old(self).wf(),
        ensures
            (final(self)@, r@) == old(self)@.focus_key(app_idx, key),
            final(self).wf(),
    {
        let ghost d = self@;
        match key {
            Key::Escape | Key::End => {
                self.leave();
                return Outcome::Done(true);
            },
            Key::Enter => {
                return self.run_terminal_line(app_idx);
            },
            Key::PageUp => {
                let found = self.move_panel(app_idx, true);
                return Outcome::Done(found);
            },
            Key::PageDown => {
                let found = self.move_panel(app_idx, false);
                return Outcome::Done(found);
            },
            _ => {},
        }
        let ghost t0 = terminal_of(d.apps, app_idx)->0;
        let mut did = Did::Nothing;
        match terminal_mut(&mut self.applications, app_idx) {
            None => {
                assert(self@ =~= d);
                return Outcome::Done(false);
            },
            Some(t) => {
                if key == Key::Tab {
                    t.history_index = None;
                    t.history_draft = None;
                    assert(t@ =~= t0.with_line(t0.line().fresh()));
                    did = Did::Asks;
                } else {
                    did = edit_terminal(t, key);
                }
            },
        }
        proof {
            if key == Key::Tab {
                assert(self@ =~= d.with_terminal(app_idx, t0.with_line(t0.line().fresh())));
            } else {
                match t0.line().edited(t0.commands, key) {
                    Some((l, b)) => {
                        assert(self@ =~= d.with_terminal(app_idx, t0.with_line(l)));
                    },
                    None => {
                        assert(with_terminal(d.apps, app_idx as int, t0) =~= d.apps);
                        assert(self@ =~= d);
                    },
                }
            }
        }
        match did {
            Did::Asks => Outcome::Ask(Ask::CompleteTerminal { app_idx }),
            Did::Changed(b) => Outcome::Done(b),
            _ => self.key_of_shell(app_idx, key),
        }
    }

    /// Completes the word at the cursor of a terminal with the suggestions for it.
    pub fn complete_terminal(&mut self, app_idx: usize, suggestions: &[String]) -> (changed: bool)
        requires
            old(self).wf(),
            terminal_of(old(self)@.apps, app_idx) matches Some(t) ==> forall|i: int|
                0 <= i < suggestions@.len() ==> t.cmd_input.len() + (
                #[trigger] suggestions@[i])@.len() < usize::MAX,
        ensures
            match terminal_of(old(self)@.apps, app_idx) {
                None => !changed && final(self)@ == old(self)@,
                Some(t) => exists|start: int, end: int|
                    #![trigger t.word_completed(start, end, texts(suggestions@))]
                    is_token(t.cmd_input, place(t.input_cursor, t.cmd_input.len()), start, end)
                        && changed == t.word_completed(start, end, texts(suggestions@)).1
                        && final(self)@ == old(self)@.with_terminal(
                        app_idx,
                        t.word_completed(start, end, texts(suggestions@)).0,
                    ),
            },
            final(self).wf(),
    {
        let ghost d = self@;
        let ghost t0 = terminal_of(d.apps, app_idx)->0;
        let mut changed = false;
        match terminal_mut(&mut self.applications, app_idx) {
            None => {
                assert(self@ =~= d);
                return false;
            },
            Some(t) => {
                changed = autocomplete_input(&mut t.cmd_input, &mut t.input_cursor, suggestions);
                proof {
                    let (start, end) = choose|start: int, end: int|
                        #![trigger is_token(t0.cmd_input, place(t0.input_cursor, t0.cmd_input.len()), start, end)]
                        is_token(
                            t0.cmd_input,
                            place(t0.input_cursor, t0.cmd_input.len()),
                            start,
                            end,
                        ) && match completion(
                            t0.cmd_input.subrange(start, end),
                            start == 0,
                            texts(suggestions@),
                        ) {
                            Some(w) => changed && t@.cmd_input == t0.cmd_input.take(start) + w
                                + t0.cmd_input.skip(end) && t@.input_cursor == start + w.len(),
                            None => !changed && t@.cmd_input == t0.cmd_input && t@.input_cursor
                                == t0.input_cursor,
                        };
                    assert(t@ =~= t0.word_completed(start, end, texts(suggestions@)).0);
                }
            },
        }
        proof {
            let (start, end) = choose|start: int, end: int|
                #![trigger t0.word_completed(start, end, texts(suggestions@))]
                is_token(t0.cmd_input, place(t0.input_cursor, t0.cmd_input.len()), start, end)
                    && changed == t0.word_completed(start, end, texts(suggestions@)).1
                    && self@.apps == with_terminal(
                    d.apps,
                    app_idx as int,
                    t0.word_completed(start, end, texts(suggestions@)).0,
                );
            assert(self@ =~= d.with_terminal(
                app_idx,
                t0.word_completed(start, end, texts(suggestions@)).0,
            ));
        }
        changed
    }

    /// Interrupts what runs in a terminal.
    pub fn interrupt(&mut self, app_idx: usize) -> (changed: bool)
        requires
            old(self).wf(),
        ensures
            (final(self)@, changed) == old(self)@.interrupted(app_idx),
            final(self).wf(),
    {
        let ghost d = self@;
        let ghost t0 = terminal_of(d.apps, app_idx)->0;
        if app_idx >= self.applications.len() {
            return false;
        }
        assert(d.apps[app_idx as int] == self.applications@[app_idx as int]@);
        let mut stopped: Option<usize> = None;
        match &self.applications[app_idx].terminal {
            None => {
                return false;
            },
            Some(t) => {
                match t.shell_session {
                    Some(s) => {
                        let mut bytes: Vec<u8> = Vec::new();
                        bytes.push(3);
                        assert(bytes@ =~= seq![3u8]);
                        self.write(s.id, bytes);
                        return true;
                    },
                    None => {},
                }
                match find_running(&t.commands) {
                    None => {
                        return false;
                    },
                    Some(k) => {
                        assert(t0.commands[k as int] == t.commands@[k as int]@);
                        stopped = t.commands[k].kill();
                    },
                }
            },
        }
        match terminal_mut(&mut self.applications, app_idx) {
            Some(t) => push_interruption(t),
            None => {},
        }
        assert(self@ =~= d.with_terminal(
            app_idx,
            TermStateModel { commands: t0.commands.push(interruption(t0.path)), ..t0 },
        ));
        match stopped {
            Some(runner) => self.emit(Effect::Stop { runner }),
            None => {},
        }
        true
    }
}

} // verus!

//! The lines that are typed into terminals.
use vstd::prelude::*;
use vstd::string::*;
use vstd::utf8::encode_utf8;
use crate::app::desktop::{
    terminal_mut, terminal_of, with_terminal, Ask, AskModel, DeskModel, Desktop, Effect,
    EffectModel, Outcome, OutcomeModel,
};
use crate::app::terminal::{copy_bytes, interactive_form, plain_entry, TermStateModel};
use crate::app::apps;
use crate::cmd::{entries, CommandEntry};
use crate::text::{is_empty, same, texts, trim, trim_string};
use crate::wm::{push_shell_command, shell_ran};

verus! {

impl TermStateModel {
    /// Nothing typed, and nothing recalled.
    pub open spec fn cleared(self) -> TermStateModel {
        TermStateModel {
            cmd_input: Seq::empty(),
            input_cursor: 0,
            history_index: None,
            history_draft: None,
            panel_scroll: 0,
            ..self
        }
    }

    /// A line run without a session.
    pub open spec fn shell_line_run(
        self,
        line: Seq<char>,
        resolved: Result<String, String>,
        runner: usize,
        failure: Option<String>,
    ) -> TermStateModel {
        let (e, path) = shell_ran(self.path, line, resolved, runner, failure);
        TermStateModel {
            commands: match e {
                Some(m) => self.commands.push(m),
                None => self.commands,
            },
            path,
            ..self
        }
    }
}

impl DeskModel {
    pub open spec fn with_terminal(self, i: usize, t: TermStateModel) -> DeskModel {
        DeskModel { apps: with_terminal(self.apps, i as int, t), ..self }
    }

    /// Bytes on their way to the session of a terminal.
    pub open spec fn wrote(self, t: TermStateModel, bytes: Seq<u8>) -> DeskModel {
        match t.session {
            Some(s) => self.emitted(EffectModel::Write { session: s.id, bytes }),
            None => self,
        }
    }

    /// A command in the shared history: it goes out, and to the commands of the dock
    /// unless it is the last of them.
    pub open spec fn recorded(self, cmd: Seq<char>) -> DeskModel {
        let cmd = trim(cmd);
        if cmd.len() == 0 {
            self
        } else {
            let s = self.emitted(EffectModel::Remember { line: cmd });
            if s.commands.len() > 0 && s.commands.last().command == cmd {
                s
            } else {
                DeskModel { commands: s.commands.push(plain_entry(cmd, s.path)), ..s }
            }
        }
    }

    /// A line that was run in terminal `i`, recorded, with the input cleared.
    pub open spec fn line_done(self, i: usize, line: Seq<char>) -> DeskModel {
        let s = self.recorded(line);
        s.with_terminal(i, terminal_of(s.apps, i)->0.cleared())
    }

    /// The line typed into terminal `i` sent to its session. Without a session what
    /// it needs is asked for.
    pub open spec fn line_entered(self, i: usize) -> (DeskModel, OutcomeModel) {
        match terminal_of(self.apps, i) {
            None => (self, OutcomeModel::Done(false)),
            Some(t) => {
                let line = trim(t.cmd_input);
                if line.len() == 0 {
                    (self, OutcomeModel::Done(false))
                } else if t.session is Some {
                    (
                        self.with_terminal(i, t.line_run(line)).wrote(
                            t,
                            encode_utf8(interactive_form(line) + "\r\n"@),
                        ).line_done(i, line),
                        OutcomeModel::Done(true),
                    )
                } else {
                    (self, OutcomeModel::Ask(AskModel::TerminalCommand { app_idx: i, line }))
                }
            },
        }
    }
}

/// Changing the terminal of an application leaves what else there is.
pub(crate) proof fn lemma_with_terminal(d: DeskModel, i: usize, t: TermStateModel)
    requires
        i < d.apps.len(),
    ensures
        terminal_of(d.with_terminal(i, t).apps, i) == Some(t),
        d.with_terminal(i, t).apps.len() == d.apps.len(),
        d.wf() && t.wf() ==> d.with_terminal(i, t).wf(),
{
    let a = d.with_terminal(i, t).apps;
    if d.wf() && t.wf() {
        assert forall|k: int| 0 <= k < a.len() implies #[trigger] a[k].wf() by {
            if k != i {
                assert(a[k] == d.apps[k]);
            }
        }
    }
}

impl Desktop {
    /// Sends bytes to a session.
    pub(crate) fn write(&mut self, session: usize, bytes: Vec<u8>)
        requires
            old(self).wf(),
        ensures
            final(self)@ == old(self)@.emitted(EffectModel::Write { session, bytes: bytes@ }),
            final(self).wf(),
    {
        self.emit(Effect::Write { session, bytes });
    }

    /// Puts a command into the shared history.
    pub fn record_command(&mut self, cmd: &str)
        requires
            old(self).wf(),
        ensures
            final(self)@ == old(self)@.recorded(cmd@),
            final(self).wf(),
    {
        let line = trim_string(cmd);
        if is_empty(line.as_str()) {
            return;
        }
        self.emit(Effect::Remember { line: line.clone() });
        let ghost s = self@;
        let n: usize = self.commands.len();
        if n > 0 {
            assert(s.commands.last() == self.commands@[n - 1]@);
            if same(self.commands[n - 1].command.as_str(), line.as_str()) {
                return;
            }
        }
        let none: Vec<String> = Vec::new();
        assert(texts(none@) =~= Seq::empty());
        let e = CommandEntry::completed(line.as_str(), self.current_path.as_str(), none);
        assert(e@ =~= plain_entry(line@, s.path));
        let ghost m = e@;
        self.commands.push(e);
        assert(entries(self.commands@) =~= s.commands.push(m));
        assert(self@ =~= (DeskModel { commands: s.commands.push(m), ..s }));
    }

    fn finish_line(&mut self, app_idx: usize, line: &str)
        requires
            old(self).wf(),
            terminal_of(old(self)@.apps, app_idx) is Some,
        ensures
            final(self)@ == old(self)@.line_done(app_idx, line@),
            final(self).wf(),
    {
        self.record_command(line);
        let ghost s = self@;
        match terminal_mut(&mut self.applications, app_idx) {
            Some(t) => {
                let ghost m = t@;
                t.cmd_input = String::new();
                t.input_cursor = 0;
                t.history_index = None;
                t.history_draft = None;
                t.panel_scroll = 0;
                assert(t@ =~= m.cleared());
            },
            None => {},
        }
        assert(self@ =~= s.with_terminal(app_idx, terminal_of(s.apps, app_idx)->0.cleared()));
    }

    /// Runs the line typed into a terminal: it goes to the session, or what it needs
    /// is asked for.
    pub fn run_terminal_line(&mut self, app_idx: usize) -> (r: Outcome)
        requires
            old(self).wf(),
        ensures
            (final(self)@, r@) == old(self)@.line_entered(app_idx),
            final(self).wf(),
    {
        let mut sent: Option<(usize, String)> = None;
        let mut line = String::new();
        match terminal_mut(&mut self.applications, app_idx) {
            None => {
                assert(self@ =~= old(self)@);
                return Outcome::Done(false);
            },
            Some(t) => {
                line = trim_string(t.cmd_input.as_str());
                if is_empty(line.as_str()) {
                    proof {
                        let a = old(self)@.apps;
                        assert(with_terminal(a, app_idx as int, t@) =~= a);
                    }
                    assert(self@ =~= old(self)@);
                    return Outcome::Done(false);
                }
                match t.shell_session {
                    None => {
                        proof {
                            let a = old(self)@.apps;
                            assert(with_terminal(a, app_idx as int, t@) =~= a);
                        }
                        assert(self@ =~= old(self)@);
                        return Outcome::Ask(Ask::TerminalCommand { app_idx, line });
                    },
                    Some(s) => {
                        match t.run_line(line.as_str()) {
                            Some(text) => {
                                sent = Some((s.id, text));
                            },
                            None => {},
                        }
                    },
                }
            },
        }
        let ghost t = terminal_of(old(self)@.apps, app_idx)->0;
        assert(self@ =~= old(self)@.with_terminal(app_idx, t.line_run(line@)));
        proof {
            lemma_with_terminal(old(self)@, app_idx, t.line_run(line@));
        }
        match sent {
            Some((session, text)) => {
                self.write(session, copy_bytes(text.as_str().as_bytes()));
            },
            None => {},
        }
        self.finish_line(app_idx, line.as_str());
        Outcome::Done(true)
    }

    /// Runs a line in a terminal without a session: `resolved` is the directory that
    /// a `cd` leads to; `runner` is the process that was started, unless it could
    /// not be.
    pub fn run_terminal_command(
        &mut self,
        app_idx: usize,
        line: &str,
        resolved: Result<String, String>,
        runner: usize,
        failure: Option<String>,
    ) -> (changed: bool)
        requires
            old(self).wf(),
        ensures
            match terminal_of(old(self)@.apps, app_idx) {
                Some(t) => changed && final(self)@ == old(self)@.with_terminal(
                    app_idx,
                    t.shell_line_run(line@, resolved, runner, failure),
                ).line_done(app_idx, line@),
                None => !changed && final(self)@ == old(self)@,
            },
            final(self).wf(),
    {
        match terminal_mut(&mut self.applications, app_idx) {
            None => {
                assert(self@ =~= old(self)@);
                return false;
            },
            Some(t) => {
                let ghost m = t@;
                push_shell_command(&mut t.commands, &mut t.path, line, resolved, runner, failure);
                assert(t@ =~= m.shell_line_run(line@, resolved, runner, failure));
            },
        }
        let ghost m = terminal_of(old(self)@.apps, app_idx)->0.shell_line_run(
            line@,
            resolved,
            runner,
            failure,
        );
        assert(self@ =~= old(self)@.with_terminal(app_idx, m));
        proof {
            lemma_with_terminal(old(self)@, app_idx, m);
        }
        self.finish_line(app_idx, line);
        true
    }
}

/// A command recorded twice in a row is one command of the dock, and goes out twice.
pub proof fn lemma_record_twice(d: DeskModel, cmd: Seq<char>)
    requires
        trim(cmd).len() > 0,
    ensures
        d.recorded(cmd).recorded(cmd).commands == d.recorded(cmd).commands,
        d.recorded(cmd).commands.last().command == trim(cmd),
        d.recorded(cmd).recorded(cmd).outbox == d.outbox.push(
            EffectModel::Remember { line: trim(cmd) },
        ).push(EffectModel::Remember { line: trim(cmd) }),
{
    crate::text::lemma_trim(cmd);
}

} // verus!

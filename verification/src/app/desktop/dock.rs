//! The dock: the line at the bottom, its commands, and what they start.
use vstd::prelude::*;
use vstd::string::*;
use crate::app::desktop::edit::{edit_line, line_view, LineModel};
use crate::app::desktop::mouse::{move_count, one_off};
use crate::app::desktop::{
    Ask, AskModel, DeskModel, Desktop, Effect, EffectModel, Outcome, OutcomeModel,
};
use crate::app::terminal::{
    flagged, interactive_named, is_interactive_app, split_interactive_flag, ShellSession,
};
use crate::app::apps;
use crate::cmd::CommandEntry;
use crate::input::{
    autocomplete_input, completion, is_token, place, reset_history_navigation,
};
use crate::os::Key;
use crate::text::{
    chars_of, first_word, first_word_chars, is_empty, lower_all, texts, to_text, trim, trim_start,
    trim_string,
};
use crate::wm::{push_shell_command, shell_ran};

verus! {

/// What a line of the dock starts in a window of its own: the program behind the
/// flag, the default shell where there is none, or a program known to be
/// interactive.
pub open spec fn interactive_program(line: Seq<char>) -> Option<Option<Seq<char>>> {
    let command = if flagged(line) {
        trim_start(line.skip(2))
    } else {
        line
    };
    if flagged(line) && command.len() == 0 {
        Some(None)
    } else if command.len() > 0 && (flagged(line) || interactive_named(
        lower_all(trim(first_word(command))),
    )) {
        Some(Some(command))
    } else {
        None
    }
}

impl DeskModel {
    /// The line of the dock.
    pub open spec fn line(self) -> LineModel {
        LineModel { input: self.input, cursor: self.cursor, index: self.index, draft: self.draft }
    }

    pub open spec fn with_line(self, l: LineModel) -> DeskModel {
        DeskModel { input: l.input, cursor: l.cursor, index: l.index, draft: l.draft, ..self }
    }

    /// A line that was run from the dock: it goes to the shared history, and the
    /// dock is cleared.
    pub open spec fn line_sent(self, line: Seq<char>) -> DeskModel {
        DeskModel {
            input: Seq::empty(),
            cursor: 0,
            index: None,
            draft: None,
            panel_scroll: 0,
            ..self.emitted(EffectModel::Remember { line })
        }
    }

    /// A key while the dock has the focus.
    pub open spec fn dock_key(self, key: Key) -> (DeskModel, OutcomeModel) {
        match key {
            Key::Escape | Key::End => (self.left(), OutcomeModel::Done(true)),
            Key::CtrlEnter => (self, OutcomeModel::Ask(AskModel::DockTerminal)),
            Key::PageUp => (
                DeskModel { panel_scroll: one_off(self.panel_scroll, true), ..self },
                OutcomeModel::Done(true),
            ),
            Key::PageDown => (
                DeskModel { panel_scroll: one_off(self.panel_scroll, false), ..self },
                OutcomeModel::Done(true),
            ),
            Key::Tab => (
                self.with_line(self.line().fresh()),
                OutcomeModel::Ask(AskModel::CompleteDock),
            ),
            Key::Enter => {
                let line = trim(self.input);
                (
                    self,
                    if line.len() == 0 {
                        OutcomeModel::Done(true)
                    } else {
                        OutcomeModel::Ask(
                            match interactive_program(line) {
                                Some(program) => AskModel::Program { program, line },
                                None => AskModel::DockCommand { line },
                            },
                        )
                    },
                )
            },
            _ => match self.line().edited(self.commands, key) {
                Some((l, b)) => (self.with_line(l), OutcomeModel::Done(b)),
                None => (self, OutcomeModel::Done(false)),
            },
        }
    }

    /// A program started from the dock, in a window of its own.
    pub open spec fn program_run(
        self,
        program: Seq<char>,
        line: Seq<char>,
        session: Option<ShellSession>,
    ) -> DeskModel {
        self.program_opened(self.desktop, self.path, program, session).focused(
            self.apps.len() as usize,
        ).line_sent(line)
    }

    /// A command run in the dock.
    pub open spec fn command_run(
        self,
        line: Seq<char>,
        resolved: Result<String, String>,
        runner: usize,
        failure: Option<String>,
    ) -> DeskModel {
        let (e, path) = shell_ran(self.path, line, resolved, runner, failure);
        DeskModel {
            commands: match e {
                Some(m) => self.commands.push(m),
                None => self.commands,
            },
            path,
            ..self
        }.line_sent(line)
    }

    /// The commands of the dock in a terminal of their own.
    pub open spec fn dock_moved(self, session: Option<ShellSession>) -> DeskModel {
        DeskModel {
            commands: Seq::empty(),
            input: Seq::empty(),
            cursor: 0,
            panel_scroll: 0,
            ..self
        }.terminal_opened(self.desktop, self.path, self.commands, session).focused(
            self.apps.len() as usize,
        )
    }

    /// The word that `start..end` bounds completed, and whether it changed.
    pub open spec fn dock_completed(
        self,
        start: int,
        end: int,
        suggestions: Seq<Seq<char>>,
    ) -> (DeskModel, bool) {
        match completion(self.input.subrange(start, end), start == 0, suggestions) {
            Some(t) => (
                DeskModel {
                    input: self.input.take(start) + t + self.input.skip(end),
                    cursor: (start + t.len()) as usize,
                    ..self
                },
                true,
            ),
            None => (self, false),
        }
    }
}

/// What the line asks for.
fn find_program(line: &str) -> (r: Option<Option<String>>)
    requires
        trim(line@) == line@,
    ensures
        match (r, interactive_program(line@)) {
            (Some(Some(p)), Some(Some(q))) => p@ == q,
            (Some(None), Some(None)) => true,
            (None, None) => true,
            _ => false,
        },
{
    let (command, by_flag) = split_interactive_flag(line);
    let empty = is_empty(command.as_str());
    if by_flag && empty {
        return Some(None);
    }
    let hint = to_text(&first_word_chars(&chars_of(command.as_str())));
    if !empty && (by_flag || is_interactive_app(hint.as_str())) {
        Some(Some(command))
    } else {
        None
    }
}

impl Desktop {
    fn send_line(&mut self, line: &str)
        requires
            old(self).wf(),
        ensures
            final(self)@ == old(self)@.line_sent(line@),
            final(self).wf(),
    {
        self.emit(Effect::Remember { line: line.to_owned() });
        self.cmd_input = String::new();
        self.cmd_cursor = 0;
        reset_history_navigation(&mut self.history_index, &mut self.history_draft);
        self.panel_scroll = 0;
        assert(self@ =~= old(self)@.line_sent(line@));
    }

    /// Takes a key while the dock has the focus.
    pub fn key_typing(&mut self, key: Key) -> (r: Outcome)
        requires
            old(self).wf(),
        ensures
            (final(self)@, r@) == old(self)@.dock_key(key),
            final(self).wf(),
    {
        let ghost d = self@;
        match key {
            Key::Escape | Key::End => {
                self.leave();
                Outcome::Done(true)
            },
            Key::CtrlEnter => Outcome::Ask(Ask::DockTerminal),
            Key::PageUp => {
                self.panel_scroll = move_count(self.panel_scroll, true);
                assert(self@ =~= d.dock_key(key).0);
                Outcome::Done(true)
            },
            Key::PageDown => {
                self.panel_scroll = move_count(self.panel_scroll, false);
                assert(self@ =~= d.dock_key(key).0);
                Outcome::Done(true)
            },
            Key::Tab => {
                reset_history_navigation(&mut self.history_index, &mut self.history_draft);
                assert(self@ =~= d.dock_key(key).0);
                Outcome::Ask(Ask::CompleteDock)
            },
            Key::Enter => {
                let line = trim_string(self.cmd_input.as_str());
                if is_empty(line.as_str()) {
                    return Outcome::Done(true);
                }
                proof {
                    crate::text::lemma_trim(d.input);
                }
                match find_program(line.as_str()) {
                    Some(program) => Outcome::Ask(Ask::Program { program, line }),
                    None => Outcome::Ask(Ask::DockCommand { line }),
                }
            },
            _ => {
                assert(d.line() =~= line_view(
                    self.cmd_input,
                    self.cmd_cursor,
                    self.history_index,
                    self.history_draft,
                ));
                let edited = edit_line(
                    &self.commands,
                    &mut self.cmd_input,
                    &mut self.cmd_cursor,
                    &mut self.history_index,
                    &mut self.history_draft,
                    key,
                );
                assert(self@ =~= d.dock_key(key).0);
                match edited {
                    Some(b) => Outcome::Done(b),
                    None => Outcome::Done(false),
                }
            },
        }
    }

    /// Opens a window for a program started from the dock.
    pub fn open_program(&mut self, program: &str, line: &str, session: Option<ShellSession>) -> (
    changed: bool)
        requires
            old(self).wf(),
        ensures
            final(self)@ == old(self)@.program_run(program@, line@, session),
            changed,
            final(self).wf(),
    {
        let path = self.current_path.clone();
        let i = self.spawn_program(self.current_desktop, path.as_str(), program, session);
        self.focus(i);
        self.send_line(line);
        true
    }

    /// Runs a command in the dock: `resolved` is the directory that a `cd` leads to;
    /// `runner` is the process that was started, unless it could not be.
    pub fn run_dock_command(
        &mut self,
        line: &str,
        resolved: Result<String, String>,
        runner: usize,
        failure: Option<String>,
    ) -> (changed: bool)
        requires
            old(self).wf(),
        ensures
            final(self)@ == old(self)@.command_run(line@, resolved, runner, failure),
            changed,
            final(self).wf(),
    {
        push_shell_command(
            &mut self.commands,
            &mut self.current_path,
            line,
            resolved,
            runner,
            failure,
        );
        let ghost s = self@;
        assert(s =~= (DeskModel { commands: s.commands, path: s.path, ..old(self)@ }));
        self.send_line(line);
        true
    }

    /// Moves the commands of the dock to a terminal with a shell.
    pub fn move_dock_to_terminal(&mut self, session: Option<ShellSession>) -> (changed: bool)
        requires
            old(self).wf(),
        ensures
            final(self)@ == old(self)@.dock_moved(session),
            changed,
            final(self).wf(),
    {
        let ghost d = self@;
        let mut commands: Vec<CommandEntry> = Vec::new();
        std::mem::swap(&mut commands, &mut self.commands);
        self.cmd_input = String::new();
        self.cmd_cursor = 0;
        self.panel_scroll = 0;
        assert(self@ =~= (DeskModel {
            commands: Seq::empty(),
            input: Seq::empty(),
            cursor: 0,
            panel_scroll: 0,
            ..d
        }));
        let path = self.current_path.clone();
        let i = self.spawn_terminal(self.current_desktop, path.as_str(), commands, session);
        self.focus(i);
        true
    }

    /// Completes the word at the cursor of the dock with the suggestions for it.
    pub fn complete_dock(&mut self, suggestions: &[String]) -> (changed: bool)
        requires
            old(self).wf(),
            forall|i: int|
                0 <= i < suggestions@.len() ==> old(self)@.input.len() + (
                #[trigger] suggestions@[i])@.len() < usize::MAX,
        ensures
            exists|start: int, end: int|
                #![trigger old(self)@.dock_completed(start, end, texts(suggestions@))]
                is_token(
                    old(self)@.input,
                    place(old(self)@.cursor, old(self)@.input.len()),
                    start,
                    end,
                ) && (final(self)@, changed) == old(self)@.dock_completed(
                    start,
                    end,
                    texts(suggestions@),
                ),
            final(self).wf(),
    {
        let ghost d = self@;
        let changed = autocomplete_input(&mut self.cmd_input, &mut self.cmd_cursor, suggestions);
        proof {
            let (start, end) = choose|start: int, end: int|
                #![trigger is_token(d.input, place(d.cursor, d.input.len()), start, end)]
                is_token(d.input, place(d.cursor, d.input.len()), start, end) && match completion(
                    d.input.subrange(start, end),
                    start == 0,
                    texts(suggestions@),
                ) {
                    Some(t) => changed && self@.input == d.input.take(start) + t + d.input.skip(end)
                        && self@.cursor == start + t.len(),
                    None => !changed && self@.input == d.input && self@.cursor == d.cursor,
                };
            assert(self@ =~= d.dock_completed(start, end, texts(suggestions@)).0);
        }
        changed
    }
}

/// A line that was run leaves the dock empty, with nothing recalled.
pub proof fn lemma_dock_cleared(d: DeskModel, line: Seq<char>)
    ensures
        d.line_sent(line).input.len() == 0,
        d.line_sent(line).cursor == 0,
        d.line_sent(line).index is None,
        d.line_sent(line).outbox == d.outbox.push(EffectModel::Remember { line }),
{
}

} // verus!

//! What the keys do to a line that is typed, in the dock and in a terminal, and what
//! becomes of it.
use vstd::prelude::*;
use vstd::utf8::encode_utf8;
use crate::app::desktop::edit::LineModel;
use crate::app::desktop::focus::{last_running, runs};
use crate::app::desktop::{terminal_of, AskModel, DeskModel, EffectModel, OutcomeModel};
use crate::app::terminal::{interactive_form, interactive_named, ShellSession};
use crate::cmd::{CommandKind, CommandStatus, EntryModel};
use crate::os::Key;
use crate::text::{first_word, is_space, lower_all, trim, trim_start};
use crate::wm::ModeModel;

verus! {

/// Whether a line reads `a` before the cursor and `b` behind it.
pub open spec fn reads(l: LineModel, a: Seq<char>, b: Seq<char>) -> bool {
    l.input == a + b && l.cursor == a.len()
}

/// The keys that a line is typed with.
pub open spec fn types(k: Key) -> bool {
    k is Char || k == Key::Backspace || k == Key::Delete || k == Key::Left || k == Key::Right || k
        == Key::Up || k == Key::Down || k == Key::PageUp || k == Key::PageDown || k == Key::Enter
}

/// None of the keys that a line is typed with is a shortcut.
pub open spec fn keys_free(d: DeskModel) -> bool {
    forall|k: Key| types(k) ==> (#[trigger] d.config.resolved(k)) is None
}

/// Whether keys go to the dock.
pub open spec fn dock_open(d: DeskModel) -> bool {
    d.mode is Typing && keys_free(d)
}

/// Whether keys go to terminal `i`, which runs no program that takes them.
pub open spec fn terminal_open(d: DeskModel, i: usize) -> bool {
    &&& d.mode == (ModeModel::TerminalFocus { app_idx: i })
    &&& i < d.apps.len()
    &&& d.apps[i as int].terminal is Some
    &&& !(d.apps[i as int].terminal->0).interactive
    &&& keys_free(d)
}

/// The line of the dock after a key.
pub open spec fn dock_after(d: DeskModel, key: Key, now: u64) -> LineModel {
    d.key_handled(key, now).0.line()
}

/// The line of terminal `i` after a key.
pub open spec fn terminal_after(d: DeskModel, i: usize, key: Key, now: u64) -> LineModel {
    (terminal_of(d.key_handled(key, now).0.apps, i)->0).line()
}

/// What the keys make of a line that reads `a` and `b`: a character goes between them,
/// Backspace takes the last of `a` and Delete the first of `b`, and the arrows move the
/// cursor over one character.
pub open spec fn keys_edit(
    after: spec_fn(Key) -> LineModel,
    l: LineModel,
    a: Seq<char>,
    b: Seq<char>,
) -> bool {
    &&& forall|c: char| reads(#[trigger] after(Key::Char(c)), a.push(c), b)
    &&& a.len() > 0 ==> reads(after(Key::Backspace), a.drop_last(), b)
    &&& a.len() == 0 ==> after(Key::Backspace).input == l.input
    &&& b.len() > 0 ==> reads(after(Key::Delete), a, b.drop_first())
    &&& b.len() == 0 ==> after(Key::Delete).input == l.input
    &&& a.len() > 0 ==> reads(after(Key::Left), a.drop_last(), seq![a.last()] + b)
    &&& b.len() > 0 ==> reads(after(Key::Right), a.push(b[0]), b.drop_first())
    &&& a.len() == 0 ==> reads(after(Key::Left), a, b)
    &&& b.len() == 0 ==> reads(after(Key::Right), a, b)
}

proof fn lemma_edits(l: LineModel, c: Seq<EntryModel>, a: Seq<char>, b: Seq<char>)
    requires
        reads(l, a, b),
        l.cursor < usize::MAX,
    ensures
        keys_edit(|k: Key| (l.edited(c, k)->0).0, l, a, b),
{
    let after = |k: Key| (l.edited(c, k)->0).0;
    assert forall|ch: char| reads(#[trigger] after(Key::Char(ch)), a.push(ch), b) by {
        assert(after(Key::Char(ch)).input =~= a.push(ch) + b);
    }
    if a.len() > 0 {
        assert(after(Key::Backspace).input =~= a.drop_last() + b);
        assert(l.input =~= a.drop_last() + (seq![a.last()] + b));
    }
    if b.len() > 0 {
        assert(after(Key::Delete).input =~= a + b.drop_first());
        assert(l.input =~= a.push(b[0]) + b.drop_first());
    }
}

proof fn lemma_dock_char(d: DeskModel, c: char, now: u64)
    requires
        dock_open(d),
    ensures
        dock_after(d, Key::Char(c), now) == (d.line().edited(d.commands, Key::Char(c))->0).0,
{
    let k = Key::Char(c);
    assert(d.config.resolved(k) is None);
}

proof fn lemma_terminal_char(d: DeskModel, i: usize, c: char, now: u64)
    requires
        terminal_open(d, i),
    ensures
        ({
            let t = terminal_of(d.apps, i)->0;
            terminal_after(d, i, Key::Char(c), now) == (t.line().edited(
                t.commands,
                Key::Char(c),
            )->0).0
        }),
{
    let k = Key::Char(c);
    assert(d.config.resolved(k) is None);
}

/// The keys edit the line of the dock.
pub proof fn lemma_dock_edited(d: DeskModel, a: Seq<char>, b: Seq<char>, now: u64)
    requires
        dock_open(d),
        reads(d.line(), a, b),
        d.cursor < usize::MAX,
    ensures
        keys_edit(|k: Key| dock_after(d, k, now), d.line(), a, b),
{
    lemma_edits(d.line(), d.commands, a, b);
    let f = |k: Key| (d.line().edited(d.commands, k)->0).0;
    let g = |k: Key| dock_after(d, k, now);
    assert forall|c: char| #[trigger] g(Key::Char(c)) == f(Key::Char(c)) by {
        lemma_dock_char(d, c, now);
    }
    assert forall|c: char| reads(#[trigger] g(Key::Char(c)), a.push(c), b) by {
        assert(reads(f(Key::Char(c)), a.push(c), b));
    }
    assert(g(Key::Backspace) == f(Key::Backspace));
    assert(g(Key::Delete) == f(Key::Delete));
    assert(g(Key::Left) == f(Key::Left));
    assert(g(Key::Right) == f(Key::Right));
}

/// The keys edit the line of the terminal that has the focus.
pub proof fn lemma_terminal_edited(d: DeskModel, i: usize, a: Seq<char>, b: Seq<char>, now: u64)
    requires
        terminal_open(d, i),
        reads((terminal_of(d.apps, i)->0).line(), a, b),
        (terminal_of(d.apps, i)->0).input_cursor < usize::MAX,
    ensures
        keys_edit(
            |k: Key| terminal_after(d, i, k, now),
            (terminal_of(d.apps, i)->0).line(),
            a,
            b,
        ),
{
    let t = terminal_of(d.apps, i)->0;
    lemma_edits(t.line(), t.commands, a, b);
    let f = |k: Key| (t.line().edited(t.commands, k)->0).0;
    let g = |k: Key| terminal_after(d, i, k, now);
    assert forall|c: char| #[trigger] g(Key::Char(c)) == f(Key::Char(c)) by {
        lemma_terminal_char(d, i, c, now);
    }
    assert forall|c: char| reads(#[trigger] g(Key::Char(c)), a.push(c), b) by {
        assert(reads(f(Key::Char(c)), a.push(c), b));
    }
    assert(g(Key::Backspace) == f(Key::Backspace));
    assert(g(Key::Delete) == f(Key::Delete));
    assert(g(Key::Left) == f(Key::Left));
    assert(g(Key::Right) == f(Key::Right));
}

/// Up recalls the newest command; each further Up the one before it, to the oldest; Down
/// goes the other way.
pub proof fn lemma_recalled_in_order(l: LineModel, c: Seq<EntryModel>, i: usize)
    requires
        0 < c.len() <= usize::MAX,
        i < c.len(),
    ensures
        l.index is None ==> (l.edited(c, Key::Up)->0).0.input == c.last().command && (l.edited(
            c,
            Key::Up,
        )->0).0.index == Some((c.len() - 1) as usize),
        l.index == Some(i) && i > 0 ==> (l.edited(c, Key::Up)->0).0.input == c[i - 1].command && (
        l.edited(c, Key::Up)->0).0.index == Some((i - 1) as usize),
        l.index == Some(i) && i == 0 ==> (l.edited(c, Key::Up)->0).0.input == c[0].command,
        l.index == Some(i) && i + 1 < c.len() ==> (l.edited(c, Key::Down)->0).0.input == c[i
            + 1].command && (l.edited(c, Key::Down)->0).0.index == Some((i + 1) as usize),
        l.index == Some(i) && i + 1 == c.len() ==> (l.edited(c, Key::Down)->0).0.index is None,
        l.index is None ==> (l.edited(c, Key::Down)->0).0 == l,
{
}

/// A recalled line has the cursor behind its last character.
pub proof fn lemma_recalled_cursor(l: LineModel, c: Seq<EntryModel>, key: Key)
    requires
        key == Key::Up || key == Key::Down,
        0 < c.len() <= usize::MAX,
        l.index is Some ==> l.index->0 < c.len(),
        (l.edited(c, key)->0).0.input.len() <= usize::MAX,
        key == Key::Down ==> l.index is Some,
    ensures
        (l.edited(c, key)->0).0.cursor == (l.edited(c, key)->0).0.input.len(),
{
}

/// PageUp shows older commands of the dock, PageDown newer ones, line by line; the typed
/// line stays.
pub proof fn lemma_dock_pages(d: DeskModel, now: u64)
    requires
        dock_open(d),
    ensures
        ({
            let (s, t) = (d.key_handled(Key::PageUp, now).0, d.key_handled(Key::PageDown, now).0);
            &&& d.panel_scroll < usize::MAX ==> s.panel_scroll == d.panel_scroll + 1
            &&& d.panel_scroll > 0 ==> t.panel_scroll == d.panel_scroll - 1
            &&& d.panel_scroll == 0 ==> t.panel_scroll == 0
            &&& s.line() == d.line() && t.line() == d.line()
        }),
{
}

/// Enter asks for the typed line to be run, without the space around it: as a program in a
/// window of its own where `#i` stands before it, and in the dock where the line does not
/// begin with `#` and its program is not known to be interactive. A blank line does
/// nothing.
pub proof fn lemma_dock_entered(d: DeskModel, program: Seq<char>, now: u64)
    requires
        dock_open(d),
    ensures
        ({
            let (s, out) = d.key_handled(Key::Enter, now);
            let line = trim(d.input);
            &&& s == d
            &&& line.len() == 0 ==> out == OutcomeModel::Done(true)
            &&& program.len() > 0 && !is_space(program[0]) && line == seq!['#', 'i', ' '] + program
                ==> out == OutcomeModel::Ask(AskModel::Program { program: Some(program), line })
            &&& line == seq!['#', 'i'] ==> out == OutcomeModel::Ask(
                AskModel::Program { program: None, line },
            )
            &&& line.len() > 0 && line[0] != '#' && !interactive_named(
                lower_all(trim(first_word(line))),
            ) ==> out == OutcomeModel::Ask(AskModel::DockCommand { line })
        }),
{
    let line = trim(d.input);
    if program.len() > 0 && !is_space(program[0]) && line == seq!['#', 'i', ' '] + program {
        assert(line.skip(2) =~= seq![' '] + program);
        assert((seq![' '] + program).drop_first() =~= program);
        reveal_with_fuel(trim_start, 3);
    }
    if line == seq!['#', 'i'] {
        assert(line.skip(2) =~= Seq::empty());
    }
}

// ── A line that is entered ───────────────────────────────────────────────────

/// A line entered into a terminal with a session goes to that session, with a carriage
/// return and a line feed behind it; it is remembered, and the next line begins empty.
pub proof fn lemma_line_sent(d: DeskModel, i: usize, now: u64)
    requires
        terminal_open(d, i),
        (d.apps[i as int].terminal->0).session is Some,
        trim((d.apps[i as int].terminal->0).cmd_input).len() > 0,
    ensures
        ({
            let t = d.apps[i as int].terminal->0;
            let s = d.key_handled(Key::Enter, now).0;
            let line = trim(t.cmd_input);
            let n = d.outbox.len() as int;
            &&& s.outbox.len() == n + 2
            &&& s.outbox[n] == (EffectModel::Write {
                session: (t.session->0).id,
                bytes: encode_utf8(interactive_form(line) + seq!['\r', '\n']),
            })
            &&& s.outbox[n + 1] == (EffectModel::Remember { line })
            &&& terminal_after(d, i, Key::Enter, now).input.len() == 0
            &&& terminal_after(d, i, Key::Enter, now).cursor == 0
            &&& (terminal_of(s.apps, i)->0).panel_scroll == 0
        }),
{
    reveal_strlit("\r\n");
    assert("\r\n"@ =~= seq!['\r', '\n']);
    crate::text::lemma_trim((d.apps[i as int].terminal->0).cmd_input);
}

/// Ctrl with C, D and Z send a session the bytes 3, 4 and 26, where they are no
/// shortcuts; what is typed stays.
pub proof fn lemma_ends_sent(d: DeskModel, i: usize, now: u64)
    requires
        terminal_open(d, i),
        (d.apps[i as int].terminal->0).session is Some,
        d.sel is None,
    ensures
        ({
            let id = ((d.apps[i as int].terminal->0).session->0).id;
            &&& d.config.resolved(Key::CtrlC) is None ==> d.key_handled(Key::CtrlC, now).0.outbox == d.outbox.push(
                EffectModel::Write { session: id, bytes: seq![3u8] },
            )
            &&& d.config.resolved(Key::CtrlD) is None ==> d.key_handled(Key::CtrlD, now).0.outbox == d.outbox.push(
                EffectModel::Write { session: id, bytes: seq![4u8] },
            )
            &&& d.config.resolved(Key::CtrlZ) is None ==> d.key_handled(Key::CtrlZ, now).0.outbox == d.outbox.push(
                EffectModel::Write { session: id, bytes: seq![26u8] },
            )
            &&& d.config.resolved(Key::CtrlC) is None ==> terminal_after(
                d,
                i,
                Key::CtrlC,
                now,
            ).input == (
            d.apps[i as int].terminal->0).cmd_input
        }),
{
}

// ── Interrupting, pasting and taking the dock along ──────────────────────────

proof fn lemma_newest_running(c: Seq<EntryModel>, n: int, k: int)
    requires
        0 <= k < n <= c.len(),
        c[k].status == CommandStatus::Running && c[k].kind == CommandKind::External,
        forall|j: int| k < j < n ==> !runs(#[trigger] c[j]),
    ensures
        last_running(c, n) == Some(k),
    decreases n,
{
    if k < n - 1 {
        assert(!runs(c[n - 1]));
        lemma_newest_running(c, n - 1, k);
    }
}

proof fn lemma_none_running(c: Seq<EntryModel>, n: int)
    requires
        0 <= n <= c.len(),
        forall|j: int| 0 <= j < n ==> (#[trigger] c[j]).status != CommandStatus::Running,
    ensures
        last_running(c, n) is None,
    decreases n,
{
    if n > 0 {
        assert(c[n - 1].status != CommandStatus::Running);
        lemma_none_running(c, n - 1);
    }
}

/// Ctrl-C in a terminal without a shell stops the process of the newest command that
/// runs, and no other. The commands stay as they were, and the interruption comes behind
/// them as one that is over.
pub proof fn lemma_newest_interrupted(d: DeskModel, i: usize, k: int, now: u64)
    requires
        d.mode == (ModeModel::TerminalFocus { app_idx: i }),
        d.sel is None,
        terminal_of(d.apps, i) is Some,
        !(d.apps[i as int].terminal->0).interactive,
        (d.apps[i as int].terminal->0).session is None,
        d.config.resolved(Key::CtrlC) is None,
        0 <= k < (d.apps[i as int].terminal->0).commands.len(),
        (d.apps[i as int].terminal->0).commands[k].status == CommandStatus::Running,
        (d.apps[i as int].terminal->0).commands[k].kind == CommandKind::External,
        (d.apps[i as int].terminal->0).commands[k].runner is Some,
        forall|j: int|
            k < j < (d.apps[i as int].terminal->0).commands.len() ==> (#[trigger] (
            d.apps[i as int].terminal->0).commands[j]).status != CommandStatus::Running,
    ensures
        ({
            let t = d.apps[i as int].terminal->0;
            let s = d.key_handled(Key::CtrlC, now).0;
            let u = terminal_of(s.apps, i)->0;
            &&& s.outbox == d.outbox.push(EffectModel::Stop { runner: t.commands[k].runner->0 })
            &&& u.commands.len() == t.commands.len() + 1
            &&& u.commands.drop_last() == t.commands
            &&& u.commands.last().status == CommandStatus::Complete
            &&& u.commands.last().cwd == t.path
            &&& u.path == t.path
        }),
{
    let t = d.apps[i as int].terminal->0;
    lemma_newest_running(t.commands, t.commands.len() as int, k);
    let u = terminal_of(d.key_handled(Key::CtrlC, now).0.apps, i)->0;
    assert(u.commands.drop_last() =~= t.commands);
}

/// Ctrl-C where no command runs changes nothing. Where a shell runs in the terminal, it is
/// sent the interrupt character.
pub proof fn lemma_interrupt_passed(d: DeskModel, i: usize, now: u64)
    requires
        d.mode == (ModeModel::TerminalFocus { app_idx: i }),
        d.sel is None,
        terminal_of(d.apps, i) is Some,
        !(d.apps[i as int].terminal->0).interactive,
        d.config.resolved(Key::CtrlC) is None,
    ensures
        ({
            let t = d.apps[i as int].terminal->0;
            let s = d.key_handled(Key::CtrlC, now).0;
            &&& t.session is None && (forall|j: int|
                0 <= j < t.commands.len() ==> (#[trigger] t.commands[j]).status
                    != CommandStatus::Running) ==> s == d
            &&& t.session is Some ==> s.apps == d.apps && s.outbox == d.outbox.push(
                EffectModel::Write { session: (t.session->0).id, bytes: seq![0x03u8] },
            )
        }),
{
    let t = d.apps[i as int].terminal->0;
    if t.session is None && (forall|j: int|
        0 <= j < t.commands.len() ==> (#[trigger] t.commands[j]).status != CommandStatus::Running) {
        lemma_none_running(t.commands, t.commands.len() as int);
    }
}

/// Pasted text goes to the program on a pseudo terminal as it is, and on a pipe it is put
/// behind the line that is typed. Pasting nothing changes nothing.
pub proof fn lemma_paste(d: DeskModel, i: usize, text: Seq<char>)
    requires
        terminal_of(d.apps, i) is Some,
    ensures
        ({
            let t = d.apps[i as int].terminal->0;
            let s = d.pasted(i, text);
            let u = terminal_of(s.apps, i)->0;
            &&& text.len() == 0 ==> s == d
            &&& text.len() > 0 && t.session is Some && (t.session->0).real_pty ==> s.apps == d.apps
                && s.outbox == d.outbox.push(
                EffectModel::Write { session: (t.session->0).id, bytes: encode_utf8(text) },
            )
            &&& text.len() > 0 && !(t.session is Some && (t.session->0).real_pty) ==> s.outbox
                == d.outbox && u.pipe_line == t.pipe_line + encode_utf8(text)
        }),
{
}

/// Taking the dock into a window empties it and moves its commands, in their order, into a
/// new terminal, which has the directory of the dock and the focus. Where it has no shell,
/// the commands keep their processes.
pub proof fn lemma_dock_taken(d: DeskModel, session: Option<ShellSession>)
    requires
        d.apps.len() < usize::MAX,
    ensures
        ({
            let s = d.dock_moved(session);
            let n = d.apps.len() as int;
            &&& s.commands.len() == 0
            &&& s.input.len() == 0
            &&& s.cursor == 0
            &&& s.panel_scroll == 0
            &&& s.apps.len() == n + 1
            &&& (s.apps[n].terminal->0).commands.len() == d.commands.len()
            &&& forall|k: int|
                0 <= k < d.commands.len() ==> ({
                    let e = #[trigger] (s.apps[n].terminal->0).commands[k];
                    &&& e.command == d.commands[k].command
                    &&& e.cwd == d.commands[k].cwd
                    &&& e.output_lines == d.commands[k].output_lines
                    &&& e.status == d.commands[k].status
                    &&& e.kind == d.commands[k].kind
                    &&& session is None ==> e.runner == d.commands[k].runner
                })
            &&& (s.apps[n].terminal->0).path == d.path
            &&& s.apps[n].desktop == d.desktop
            &&& s.mode == (ModeModel::TerminalFocus { app_idx: d.apps.len() as usize })
            &&& forall|k: int| 0 <= k < n ==> #[trigger] s.apps[k] == d.apps[k]
        }),
{
}

} // verus!

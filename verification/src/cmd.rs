//! Commands of the dock: what was run, what it printed, and how far it is.
use vstd::prelude::*;
use vstd::string::*;
use crate::text::{
    chars_are, chars_of, clone_texts, dec, first_word, first_word_chars, lossy, lossy_text,
    push_dec, push_line, push_repeated, push_text, repeated, string_of, texts, to_text, trim,
    trim_chars,
};

verus! {

#[derive(Debug, PartialEq, Eq, Clone, Copy, Structural)]
pub enum CommandKind {
    Builtin,
    External,
}

#[derive(Debug, PartialEq, Eq, Clone, Copy, Structural)]
pub enum CommandStatus {
    Running,
    Complete,
}

/// One command with its output.
pub struct CommandEntry {
    pub command: String,
    pub cwd: String,
    pub output_lines: Vec<String>,
    pub status: CommandStatus,
    pub kind: CommandKind,
    /// The number of the process that runs for it.
    pub runner: Option<usize>,
}

#[verifier::ext_equal]
pub struct EntryModel {
    pub command: Seq<char>,
    pub cwd: Seq<char>,
    pub output_lines: Seq<Seq<char>>,
    pub status: CommandStatus,
    pub kind: CommandKind,
    pub runner: Option<usize>,
}

impl View for CommandEntry {
    type V = EntryModel;

    open spec fn view(&self) -> EntryModel {
        EntryModel {
            command: self.command@,
            cwd: self.cwd@,
            output_lines: texts(self.output_lines@),
            status: self.status,
            kind: self.kind,
            runner: self.runner,
        }
    }
}

/// The models of a list of commands.
pub open spec fn entries(v: Seq<CommandEntry>) -> Seq<EntryModel> {
    Seq::new(v.len(), |i: int| v[i]@)
}

impl Clone for CommandEntry {
    /// A copy without the process.
    fn clone(&self) -> (r: CommandEntry)
        ensures
            r@ == (EntryModel { runner: None, ..self@ }),
    {
        CommandEntry {
            command: self.command.clone(),
            cwd: self.cwd.clone(),
            output_lines: clone_texts(&self.output_lines),
            status: self.status,
            kind: self.kind,
            runner: None,
        }
    }
}

/// Copies of a list of commands, without their processes.
pub fn clone_entries(v: &[CommandEntry]) -> (r: Vec<CommandEntry>)
    ensures
        r@.len() == v@.len(),
        forall|i: int|
            0 <= i < r@.len() ==> (#[trigger] r@[i])@ == (EntryModel { runner: None, ..v@[i]@ }),
{
    let mut r: Vec<CommandEntry> = Vec::new();
    while r.len() < v.len()
        invariant
            r@.len() <= v@.len(),
            forall|i: int|
                0 <= i < r@.len() ==> (#[trigger] r@[i])@ == (EntryModel {
                    runner: None,
                    ..v@[i]@
                }),
        decreases v@.len() - r@.len(),
    {
        let one = v[r.len()].clone();
        r.push(one);
    }
    r
}

/// Whether a word names a command that is built in.
pub open spec fn builtin_named(v: Seq<char>) -> bool {
    v == "cd"@ || v == "pwd"@ || v == "clear"@ || v == "help"@ || v == "exit"@
}

/// What a command line is: built in where its first word is.
pub open spec fn kind_of(line: Seq<char>) -> CommandKind {
    if builtin_named(first_word(line)) {
        CommandKind::Builtin
    } else {
        CommandKind::External
    }
}

/// Whether a word names a command that is built in.
pub fn is_builtin(name: &[char]) -> (r: bool)
    ensures
        r == builtin_named(name@),
{
    chars_are(name, "cd") || chars_are(name, "pwd") || chars_are(name, "clear") || chars_are(
        name,
        "help",
    ) || chars_are(name, "exit")
}

fn find_kind(line: &[char]) -> (k: CommandKind)
    ensures
        k == kind_of(line@),
{
    if is_builtin(&first_word_chars(line)) {
        CommandKind::Builtin
    } else {
        CommandKind::External
    }
}

/// A line of the built-in help: the command in twenty columns, and what it does.
pub open spec fn help_line(cmd: Seq<char>, what: Seq<char>) -> Seq<char> {
    "  "@ + cmd + repeated(' ', 20 - cmd.len()) + " "@ + what
}

/// What the built-in `help` prints.
pub open spec fn builtin_help() -> Seq<Seq<char>> {
    seq![
        "Built-in commands:"@,
        help_line("cd <path>"@, "Change the current directory"@),
        help_line("pwd"@, "Print the current working directory"@),
        help_line("clear"@, "Clear the terminal screen"@),
        help_line("help"@, "Show this help message"@),
        help_line("exit"@, "Close the focused terminal window"@),
    ]
}

/// What a built-in command prints in the directory `cwd`.
pub open spec fn builtin_output(line: Seq<char>, cwd: Seq<char>) -> Seq<Seq<char>> {
    let word = first_word(trim(line));
    if word == "pwd"@ {
        seq![cwd]
    } else if word == "help"@ {
        builtin_help()
    } else if word == "exit"@ {
        seq!["__EXIT__"@]
    } else {
        Seq::empty()
    }
}

fn push_help_line(v: &mut Vec<String>, cmd: &str, what: &str)
    ensures
        texts(final(v)@) == texts(old(v)@).push(help_line(cmd@, what@)),
{
    let mut s = "  ".to_owned();
    s.append(cmd);
    let n: usize = chars_of(cmd).len();
    let pad: usize = if n < 20 {
        20 - n
    } else {
        0
    };
    push_repeated(&mut s, ' ', pad);
    s.append(" ");
    s.append(what);
    assert(repeated(' ', pad as int) =~= repeated(' ', 20 - n));
    assert(s@ =~= help_line(cmd@, what@));
    push_text(v, s);
}

/// The exit code as it is shown.
pub open spec fn exit_text(code: i32) -> Seq<char> {
    if code == 0 {
        "complete"@
    } else if code < 0 {
        "exit -"@ + dec((-code) as nat)
    } else {
        "exit "@ + dec(code as nat)
    }
}

fn exit_line(code: i32) -> (s: String)
    ensures
        s@ == exit_text(code),
{
    if code == 0 {
        return "complete".to_owned();
    }
    let wide: i64 = code as i64;
    if wide < 0 {
        let mut s = "exit -".to_owned();
        push_dec(&mut s, (-wide) as u128);
        s
    } else {
        let mut s = "exit ".to_owned();
        push_dec(&mut s, wide as u128);
        s
    }
}

/// `out` with the lines behind it; lines of white space before any other are
/// left out.
pub open spec fn with_lines(out: Seq<Seq<char>>, lines: Seq<Seq<char>>) -> Seq<Seq<char>>
    decreases lines.len(),
{
    if lines.len() == 0 {
        out
    } else {
        let front = with_lines(out, lines.drop_last());
        if front.len() == 0 && trim(lines.last()).len() == 0 {
            front
        } else {
            front.push(lines.last())
        }
    }
}

impl EntryModel {
    /// What came from the process: lines, and whether it has ended and how.
    pub open spec fn ticked(
        self,
        lines: Seq<Seq<char>>,
        exit_code: Option<i32>,
        closed: bool,
    ) -> EntryModel {
        let out = with_lines(self.output_lines, lines);
        let code = match exit_code {
            Some(c) => c,
            None => 0i32,
        };
        if self.runner is None {
            self
        } else if closed {
            EntryModel {
                output_lines: if out.len() == 0 {
                    seq![exit_text(code)]
                } else {
                    out
                },
                status: CommandStatus::Complete,
                runner: None,
                ..self
            }
        } else {
            EntryModel { output_lines: out, ..self }
        }
    }

    pub open spec fn is_exit(self) -> bool {
        self.kind == CommandKind::Builtin && first_word(self.command) == "exit"@
    }
}

proof fn lemma_with_lines(out: Seq<Seq<char>>, lines: Seq<Seq<char>>)
    ensures
        out.len() <= with_lines(out, lines).len() <= out.len() + lines.len(),
        with_lines(out, lines).len() == out.len() ==> with_lines(out, lines) == out,
    decreases lines.len(),
{
    if lines.len() > 0 {
        lemma_with_lines(out, lines.drop_last());
    }
}

impl CommandEntry {
    /// A command that is done, with its output.
    pub fn completed(cmd: &str, cwd: &str, output_lines: Vec<String>) -> (e: CommandEntry)
        ensures
            e@ == (EntryModel {
                command: trim(cmd@),
                cwd: cwd@,
                output_lines: texts(output_lines@),
                status: CommandStatus::Complete,
                kind: kind_of(trim(cmd@)),
                runner: None,
            }),
    {
        let name = trim_chars(&chars_of(cmd));
        CommandEntry {
            command: to_text(&name),
            cwd: cwd.to_owned(),
            output_lines,
            status: CommandStatus::Complete,
            kind: find_kind(&name),
            runner: None,
        }
    }

    /// A command that the process numbered `runner` was started for; `failure` says
    /// why none could be.
    pub fn spawn(cmd: &str, cwd: &str, runner: usize, failure: Option<String>) -> (e: CommandEntry)
        ensures
            e@ == (EntryModel {
                command: trim(cmd@),
                cwd: cwd@,
                output_lines: match failure {
                    Some(why) => seq![why@],
                    None => Seq::empty(),
                },
                status: match failure {
                    Some(_) => CommandStatus::Complete,
                    None => CommandStatus::Running,
                },
                kind: kind_of(trim(cmd@)),
                runner: match failure {
                    Some(_) => None,
                    None => Some(runner),
                },
            }),
    {
        let name = trim_chars(&chars_of(cmd));
        let mut output_lines: Vec<String> = Vec::new();
        assert(texts(output_lines@) =~= Seq::empty());
        let mut status = CommandStatus::Running;
        let mut process: Option<usize> = Some(runner);
        match failure {
            Some(why) => {
                let ghost text = why@;
                push_text(&mut output_lines, why);
                assert(texts(output_lines@) =~= seq![text]);
                status = CommandStatus::Complete;
                process = None;
            },
            None => {},
        }
        CommandEntry {
            command: to_text(&name),
            cwd: cwd.to_owned(),
            output_lines,
            status,
            kind: find_kind(&name),
            runner: process,
        }
    }

    /// What a built-in command prints.
    pub fn run_builtin(command: &str, cwd: &str) -> (v: Vec<String>)
        ensures
            texts(v@) == builtin_output(command@, cwd@),
    {
        let word = first_word_chars(&trim_chars(&chars_of(command)));
        let mut v: Vec<String> = Vec::new();
        assert(texts(v@) =~= Seq::empty());
        if chars_are(&word, "pwd") {
            push_line(&mut v, cwd);
        } else if chars_are(&word, "help") {
            push_line(&mut v, "Built-in commands:");
            push_help_line(&mut v, "cd <path>", "Change the current directory");
            push_help_line(&mut v, "pwd", "Print the current working directory");
            push_help_line(&mut v, "clear", "Clear the terminal screen");
            push_help_line(&mut v, "help", "Show this help message");
            push_help_line(&mut v, "exit", "Close the focused terminal window");
        } else if chars_are(&word, "exit") {
            push_line(&mut v, "__EXIT__");
        }
        assert(texts(v@) =~= builtin_output(command@, cwd@));
        v
    }

    /// Whether this is the built-in `exit`.
    pub fn is_exit(&self) -> (r: bool)
        ensures
            r == self@.is_exit(),
    {
        self.kind == CommandKind::Builtin && chars_are(
            &first_word_chars(&chars_of(self.command.as_str())),
            "exit",
        )
    }

    /// Takes in what came from the process since the last time. Says whether
    /// anything changed.
    pub fn tick(&mut self, lines: &[String], exit_code: Option<i32>, closed: bool) -> (changed: bool)
        ensures
            final(self)@ == old(self)@.ticked(texts(lines@), exit_code, closed),
            changed == (old(self)@.runner is Some && (closed || with_lines(
                old(self)@.output_lines,
                texts(lines@),
            ) != old(self)@.output_lines)),
    {
        if self.runner.is_none() {
            return false;
        }
        let ghost all = texts(lines@);
        let ghost start = self@.output_lines;
        let mut i: usize = 0;
        let mut changed = closed;
        assert(all.take(0) =~= Seq::empty());
        while i < lines.len()
            invariant
                i <= lines@.len(),
                all == texts(lines@),
                self@ == (EntryModel {
                    output_lines: with_lines(start, all.take(i as int)),
                    ..old(self)@
                }),
                changed == (closed || with_lines(start, all.take(i as int)).len() > start.len()),
            decreases lines@.len() - i,
        {
            assert(all.take(i + 1).drop_last() =~= all.take(i as int));
            assert(all.take(i + 1).last() == lines@[i as int]@);
            proof {
                lemma_with_lines(start, all.take(i as int));
            }
            let empty = trim_chars(&chars_of(lines[i].as_str())).len() == 0;
            if !(self.output_lines.len() == 0 && empty) {
                let line = lines[i].clone();
                push_text(&mut self.output_lines, line);
                changed = true;
            }
            i = i + 1;
        }
        assert(all.take(i as int) =~= all);
        proof {
            lemma_with_lines(start, all);
        }
        if closed {
            if self.output_lines.len() == 0 {
                let code: i32 = match exit_code {
                    Some(c) => c,
                    None => 0,
                };
                push_text(&mut self.output_lines, exit_line(code));
                assert(texts(self.output_lines@) =~= seq![exit_text(code)]);
            }
            self.status = CommandStatus::Complete;
            self.runner = None;
        }
        assert(self@ =~= old(self)@.ticked(all, exit_code, closed));
        changed
    }

    /// The process to end, where there is one.
    pub fn kill(&self) -> (r: Option<usize>)
        ensures
            r == self@.runner,
    {
        self.runner
    }

    /// Whether this is an outside command that still runs.
    pub fn is_running_external(&self) -> (r: bool)
        ensures
            r == (self@.status == CommandStatus::Running && self@.kind == CommandKind::External),
    {
        self.status == CommandStatus::Running && self.kind == CommandKind::External
    }
}

/// What came from one process.
pub struct Poll {
    pub lines: Vec<String>,
    pub exit_code: Option<i32>,
    pub closed: bool,
}

/// What a reader of a command's output reports: a line, or that the stream ended.
#[derive(Debug)]
pub enum RunnerUpdate {
    Line(String),
    Closed,
}

/// The lines among the updates.
pub open spec fn lines_among(u: Seq<RunnerUpdate>) -> Seq<Seq<char>>
    decreases u.len(),
{
    if u.len() == 0 {
        Seq::empty()
    } else {
        match u.last() {
            RunnerUpdate::Line(l) => lines_among(u.drop_last()).push(l@),
            RunnerUpdate::Closed => lines_among(u.drop_last()),
        }
    }
}

/// How many streams ended among the updates.
pub open spec fn ends_among(u: Seq<RunnerUpdate>) -> nat
    decreases u.len(),
{
    if u.len() == 0 {
        0
    } else {
        ends_among(u.drop_last()) + if u.last() is Closed {
            1nat
        } else {
            0
        }
    }
}

impl Poll {
    /// What the updates of the readers amount to. The command is done once its two
    /// streams, or all readers, have ended and the process too; `closed_streams`
    /// counts the ended ones.
    pub fn collect(
        updates: &[RunnerUpdate],
        disconnected: bool,
        closed_streams: &mut usize,
        exit_code: Option<i32>,
    ) -> (p: Poll)
        requires
            *old(closed_streams) + updates@.len() <= usize::MAX,
        ensures
            texts(p.lines@) == lines_among(updates@),
            p.exit_code == exit_code,
            *final(closed_streams) == (if disconnected {
                2
            } else {
                *old(closed_streams) + ends_among(updates@)
            }),
            p.closed == (*final(closed_streams) >= 2 && exit_code is Some),
    {
        let mut lines: Vec<String> = Vec::new();
        let mut i: usize = 0;
        assert(updates@.take(0) =~= Seq::empty());
        assert(texts(lines@) =~= Seq::empty());
        while i < updates.len()
            invariant
                i <= updates@.len(),
                *old(closed_streams) + updates@.len() <= usize::MAX,
                texts(lines@) == lines_among(updates@.take(i as int)),
                *closed_streams == *old(closed_streams) + ends_among(updates@.take(i as int)),
                ends_among(updates@.take(i as int)) <= i,
            decreases updates@.len() - i,
        {
            assert(updates@.take(i + 1).drop_last() =~= updates@.take(i as int));
            assert(updates@.take(i + 1).last() == updates@[i as int]);
            match &updates[i] {
                RunnerUpdate::Line(l) => push_text(&mut lines, l.clone()),
                RunnerUpdate::Closed => {
                    *closed_streams = *closed_streams + 1;
                },
            }
            i = i + 1;
        }
        assert(updates@.take(i as int) =~= updates@);
        if disconnected {
            *closed_streams = 2;
        }
        let closed = *closed_streams >= 2 && exit_code.is_some();
        Poll { lines, exit_code, closed }
    }
}

/// Takes in what came from each process, in the order of the commands. Says
/// whether anything changed.
pub fn tick_all(commands: &mut Vec<CommandEntry>, polls: &[Poll]) -> (changed: bool)
    requires
        polls@.len() == old(commands)@.len(),
    ensures
        final(commands)@.len() == old(commands)@.len(),
        forall|i: int|
            0 <= i < polls@.len() ==> (#[trigger] final(commands)@[i])@ == old(
                commands,
            )@[i]@.ticked(texts(polls@[i].lines@), polls@[i].exit_code, polls@[i].closed),
        changed == exists|i: int|
            0 <= i < polls@.len() && #[trigger] ticks(old(commands)@[i]@, polls@[i]),
{
    let mut changed = false;
    let mut i: usize = 0;
    while i < commands.len()
        invariant
            i <= commands@.len(),
            commands@.len() == old(commands)@.len(),
            polls@.len() == commands@.len(),
            forall|k: int|
                0 <= k < i ==> (#[trigger] commands@[k])@ == old(commands)@[k]@.ticked(
                    texts(polls@[k].lines@),
                    polls@[k].exit_code,
                    polls@[k].closed,
                ),
            forall|k: int| i <= k < commands@.len() ==> commands@[k] == old(commands)@[k],
            changed == exists|k: int|
                0 <= k < i && #[trigger] ticks(old(commands)@[k]@, polls@[k]),
        decreases commands@.len() - i,
    {
        let p = &polls[i];
        let ghost before = changed;
        let one = commands[i].tick(&p.lines, p.exit_code, p.closed);
        proof {
            assert(one == ticks(old(commands)@[i as int]@, polls@[i as int]));
        }
        if one {
            changed = true;
        }
        i = i + 1;
    }
    changed
}

/// Whether a poll changes a command.
pub open spec fn ticks(e: EntryModel, p: Poll) -> bool {
    e.runner is Some && (p.closed || with_lines(e.output_lines, texts(p.lines@)) != e.output_lines)
}

// ── Lines out of a stream ────────────────────────────────────────────────────

/// `s` without the line breaks at its end.
pub open spec fn trim_breaks(s: Seq<char>) -> Seq<char>
    decreases s.len(),
{
    if s.len() > 0 && (s.last() == '\n' || s.last() == '\r') {
        trim_breaks(s.drop_last())
    } else {
        s
    }
}

/// What a stream has given so far: the lines, and the text behind the last line
/// break.
#[verifier::ext_equal]
pub struct SplitModel {
    pub lines: Seq<Seq<char>>,
    pub rest: Seq<char>,
}

impl SplitModel {
    /// One character more. A line break ends a line; empty lines are left out.
    pub open spec fn step(self, c: char) -> SplitModel {
        if c == '\n' {
            let line = trim_breaks(self.rest);
            SplitModel {
                lines: if line.len() == 0 {
                    self.lines
                } else {
                    self.lines.push(line)
                },
                rest: Seq::empty(),
            }
        } else {
            SplitModel { rest: self.rest.push(c), ..self }
        }
    }

    pub open spec fn run(self, t: Seq<char>) -> SplitModel
        decreases t.len(),
    {
        if t.len() == 0 {
            self
        } else {
            self.run(t.drop_last()).step(t.last())
        }
    }
}

/// A stream may arrive in pieces cut anywhere: the lines are the same.
pub proof fn lemma_split_chunks(m: SplitModel, a: Seq<char>, b: Seq<char>)
    ensures
        m.run(a + b) == m.run(a).run(b),
    decreases b.len(),
{
    if b.len() == 0 {
        assert(a + b =~= a);
    } else {
        assert((a + b).drop_last() =~= a + b.drop_last());
        lemma_split_chunks(m, a, b.drop_last());
    }
}

/// Cuts a stream into lines.
pub struct LineSplitter {
    rest: Vec<char>,
}

impl LineSplitter {
    pub closed spec fn rest(&self) -> Seq<char> {
        self.rest@
    }

    pub fn new() -> (s: LineSplitter)
        ensures
            s.rest() == Seq::<char>::empty(),
    {
        LineSplitter { rest: Vec::new() }
    }

    /// Takes in a piece of the stream; gives the lines that it completes.
    pub fn feed(&mut self, text: &str) -> (lines: Vec<String>)
        ensures
            (SplitModel { lines: texts(lines@), rest: final(self).rest() }) == (SplitModel {
                lines: Seq::empty(),
                rest: old(self).rest(),
            }).run(text@),
    {
        let v = chars_of(text);
        let ghost start = SplitModel { lines: Seq::empty(), rest: old(self).rest() };
        let mut lines: Vec<String> = Vec::new();
        let mut i: usize = 0;
        assert(v@.take(0) =~= Seq::empty());
        assert(texts(lines@) =~= Seq::empty());
        while i < v.len()
            invariant
                i <= v@.len(),
                start == (SplitModel { lines: Seq::empty(), rest: old(self).rest() }),
                (SplitModel { lines: texts(lines@), rest: self.rest() }) == start.run(
                    v@.take(i as int),
                ),
            decreases v@.len() - i,
        {
            assert(v@.take(i + 1).drop_last() =~= v@.take(i as int));
            let ghost before = SplitModel { lines: texts(lines@), rest: self.rest() };
            if v[i] == '\n' {
                let mut n: usize = self.rest.len();
                assert(self.rest@.take(n as int) =~= self.rest@);
                while n > 0 && (self.rest[n - 1] == '\n' || self.rest[n - 1] == '\r')
                    invariant
                        n <= self.rest@.len(),
                        trim_breaks(self.rest@.take(n as int)) == trim_breaks(self.rest@),
                    decreases n,
                {
                    assert(self.rest@.take(n as int).drop_last() =~= self.rest@.take(n - 1));
                    n = n - 1;
                }
                if n > 0 {
                    let line = string_of(&self.rest, 0, n);
                    assert(self.rest@.subrange(0, n as int) =~= self.rest@.take(n as int));
                    push_text(&mut lines, line);
                }
                self.rest = Vec::new();
            } else {
                self.rest.push(v[i]);
            }
            assert(SplitModel { lines: texts(lines@), rest: self.rest() } =~= before.step(
                v@[i as int],
            ));
            i = i + 1;
        }
        assert(v@.take(i as int) =~= v@);
        lines
    }

    /// What has come behind the last line break.
    pub fn rest_text(&self) -> (s: String)
        ensures
            s@ == self.rest(),
    {
        to_text(&self.rest)
    }

    /// The stream has ended: what is left is a line of its own, unless it is white
    /// space.
    pub fn finish(&self) -> (line: Option<String>)
        ensures
            match line {
                Some(t) => t@ == trim(self.rest()) && t@.len() > 0,
                None => trim(self.rest()).len() == 0,
            },
    {
        let t = trim_chars(&self.rest);
        if t.len() == 0 {
            None
        } else {
            Some(to_text(&t))
        }
    }
}

/// The lines of a stream that came in pieces of bytes.
pub open spec fn lossy_split(chunks: Seq<Seq<u8>>) -> SplitModel
    decreases chunks.len(),
{
    if chunks.len() == 0 {
        SplitModel { lines: Seq::empty(), rest: Seq::empty() }
    } else {
        lossy_split(chunks.drop_last()).run(lossy_text(chunks.last()))
    }
}

/// The lines of a stream that has ended.
pub open spec fn lossy_lines(chunks: Seq<Seq<u8>>) -> Seq<Seq<char>> {
    let m = lossy_split(chunks);
    if trim(m.rest).len() > 0 {
        m.lines.push(trim(m.rest))
    } else {
        m.lines
    }
}

proof fn lemma_split_behind(m: SplitModel, before: Seq<Seq<char>>, t: Seq<char>)
    ensures
        (SplitModel { lines: before + m.lines, ..m }).run(t) == (SplitModel {
            lines: before + m.run(t).lines,
            ..m.run(t)
        }),
    decreases t.len(),
{
    if t.len() > 0 {
        lemma_split_behind(m, before, t.drop_last());
        let n = m.run(t.drop_last());
        let line = trim_breaks(n.rest);
        assert(before + n.lines.push(line) =~= (before + n.lines).push(line));
    }
}

impl LineSplitter {
    /// Takes in bytes of the stream; gives the lines that they complete.
    pub fn feed_bytes(&mut self, bytes: &[u8]) -> (lines: Vec<String>)
        ensures
            (SplitModel { lines: texts(lines@), rest: final(self).rest() }) == (SplitModel {
                lines: Seq::empty(),
                rest: old(self).rest(),
            }).run(lossy_text(bytes@)),
    {
        let text = lossy(bytes);
        self.feed(text.as_str())
    }
}

/// The lines of a stream that came in pieces of bytes and has ended.
pub fn read_lossy_lines(chunks: &[Vec<u8>]) -> (lines: Vec<String>)
    ensures
        texts(lines@) == lossy_lines(chunks@.map_values(|c: Vec<u8>| c@)),
{
    let ghost all = chunks@.map_values(|c: Vec<u8>| c@);
    let mut splitter = LineSplitter::new();
    let mut lines: Vec<String> = Vec::new();
    let mut i: usize = 0;
    assert(all.take(0) =~= Seq::empty());
    assert(texts(lines@) =~= Seq::empty());
    while i < chunks.len()
        invariant
            i <= chunks@.len(),
            all == chunks@.map_values(|c: Vec<u8>| c@),
            (SplitModel { lines: texts(lines@), rest: splitter.rest() }) == lossy_split(
                all.take(i as int),
            ),
        decreases chunks@.len() - i,
    {
        assert(all.take(i + 1).drop_last() =~= all.take(i as int));
        assert(all.take(i + 1).last() == chunks@[i as int]@);
        let ghost before = texts(lines@);
        let ghost start = SplitModel { lines: Seq::empty(), rest: splitter.rest() };
        let more = splitter.feed_bytes(&chunks[i]);
        proof {
            lemma_split_behind(start, before, lossy_text(chunks@[i as int]@));
            assert(before + start.lines =~= before);
        }
        let mut k: usize = 0;
        assert(texts(more@).take(0) =~= Seq::empty());
        assert(before + Seq::<Seq<char>>::empty() =~= before);
        while k < more.len()
            invariant
                k <= more@.len(),
                texts(lines@) == before + texts(more@).take(k as int),
            decreases more@.len() - k,
        {
            push_text(&mut lines, more[k].clone());
            assert(texts(lines@) =~= before + texts(more@).take(k + 1));
            k = k + 1;
        }
        assert(texts(more@).take(k as int) =~= texts(more@));
        i = i + 1;
    }
    assert(all.take(i as int) =~= all);
    match splitter.finish() {
        Some(line) => push_text(&mut lines, line),
        None => {},
    }
    lines
}

} // verus!

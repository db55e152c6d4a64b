//! A small shell of its own: timers that count down, and their lines in a tree.
use vstd::prelude::*;
use vstd::string::*;
use crate::text::{
    chars_are, chars_of, dec, first_word, first_word_chars, push_dec, push_text, same_chars,
    slice_chars, texts, to_text, trim, trim_chars, word_of,
};

verus! {

#[derive(Debug, Clone, Copy, PartialEq, Eq, Structural)]
pub enum CommandStatus {
    Running,
    Complete,
}

/// A command and what it has printed.
pub struct CommandEntry {
    pub command: String,
    pub output_lines: Vec<String>,
    pub status: CommandStatus,
    /// The seconds that its timer has left.
    timer: Option<u32>,
}

#[verifier::ext_equal]
pub struct TimerModel {
    pub command: Seq<char>,
    pub output_lines: Seq<Seq<char>>,
    pub status: CommandStatus,
    pub timer: Option<u32>,
}

impl View for CommandEntry {
    type V = TimerModel;

    closed spec fn view(&self) -> TimerModel {
        TimerModel {
            command: self.command@,
            output_lines: texts(self.output_lines@),
            status: self.status,
            timer: self.timer,
        }
    }
}

/// The models of a list of commands.
pub open spec fn timers(v: Seq<CommandEntry>) -> Seq<TimerModel> {
    Seq::new(v.len(), |i: int| v[i]@)
}

// ── Timers ───────────────────────────────────────────────────────────────────

/// The number that a row of digits spells, where it fits.
pub open spec fn digits_value(s: Seq<char>) -> Option<u32>
    decreases s.len(),
{
    if s.len() == 0 {
        Some(0)
    } else {
        match digits_value(s.drop_last()) {
            Some(v) => if '0' <= s.last() <= '9' && v * 10 + (s.last() as u32 - 48) <= u32::MAX {
                Some((v * 10 + (s.last() as u32 - 48)) as u32)
            } else {
                None
            },
            None => None,
        }
    }
}

/// The number that a word spells: digits, with a `+` in front where there is one.
pub open spec fn number_of(s: Seq<char>) -> Option<u32> {
    let d = if s.len() > 0 && s[0] == '+' {
        s.drop_first()
    } else {
        s
    };
    if d.len() == 0 {
        None
    } else {
        digits_value(d)
    }
}

/// The seconds of a timer: `timer` and a number above 0.
pub open spec fn seconds_of(cmd: Seq<char>) -> Option<u32> {
    let line = trim(cmd);
    let name = first_word(line);
    let rest = trim(line.skip(name.len() as int));
    if name == "timer"@ && rest.len() > 0 && first_word(rest) == rest {
        match number_of(rest) {
            Some(n) => if n > 0 {
                Some(n)
            } else {
                None
            },
            None => None,
        }
    } else {
        None
    }
}

/// The seconds left, as they are printed.
pub open spec fn seconds_text(n: u32) -> Seq<char> {
    dec(n as nat) + "s"@
}

impl TimerModel {
    /// A command that was entered: a timer starts, anything else is not known.
    pub open spec fn entered(cmd: Seq<char>) -> TimerModel {
        match seconds_of(cmd) {
            Some(n) => TimerModel {
                command: trim(cmd),
                output_lines: seq![seconds_text(n)],
                status: CommandStatus::Running,
                timer: Some(n),
            },
            None => TimerModel {
                command: trim(cmd),
                output_lines: seq!["command not found"@],
                status: CommandStatus::Complete,
                timer: None,
            },
        }
    }

    /// One second later.
    pub open spec fn ticked(self) -> TimerModel {
        match self.timer {
            Some(n) => if n > 1 {
                TimerModel {
                    output_lines: self.output_lines.push(seconds_text((n - 1) as u32)),
                    timer: Some((n - 1) as u32),
                    ..self
                }
            } else {
                TimerModel {
                    output_lines: self.output_lines.push("complete"@),
                    status: CommandStatus::Complete,
                    timer: None,
                    ..self
                }
            },
            None => self,
        }
    }

    /// `n` seconds later.
    pub open spec fn after(self, n: nat) -> TimerModel
        decreases n,
    {
        if n == 0 {
            self
        } else {
            self.after((n - 1) as nat).ticked()
        }
    }
}

/// A timer counts down every second once and then is complete.
pub proof fn lemma_timer_completes(m: TimerModel, k: nat)
    requires
        m.timer matches Some(n) && 0 < n && k <= n,
    ensures
        ({
            let n = m.timer->0;
            let r = m.after(k);
            &&& r.command == m.command
            &&& r.output_lines.len() == m.output_lines.len() + k
            &&& k < n ==> r.timer == Some((n - k) as u32) && r.status == m.status
            &&& k == n ==> r.timer is None && r.status == CommandStatus::Complete
                && r.output_lines.last() == "complete"@
        }),
    decreases k,
{
    if k > 0 {
        lemma_timer_completes(m, (k - 1) as nat);
    }
}

fn read_digits(v: &[char], from: usize) -> (r: Option<u32>)
    requires
        from <= v@.len(),
    ensures
        r == digits_value(v@.skip(from as int)),
{
    let ghost d = v@.skip(from as int);
    let mut n: u32 = 0;
    let mut i: usize = from;
    assert(d.take(0) =~= Seq::empty());
    while i < v.len()
        invariant
            from <= i <= v@.len(),
            d == v@.skip(from as int),
            digits_value(d.take(i - from)) == Some(n),
        decreases v@.len() - i,
    {
        let c: char = v[i];
        let ghost k = i - from;
        assert(d.take(k + 1).drop_last() =~= d.take(k));
        assert(d.take(k + 1).last() == c);
        if !('0' <= c && c <= '9') {
            proof {
                lemma_no_digits(d, k + 1);
            }
            return None;
        }
        let next: u64 = n as u64 * 10 + (c as u32 - 48) as u64;
        if next > 0xffff_ffff {
            proof {
                lemma_no_digits(d, k + 1);
            }
            return None;
        }
        n = next as u32;
        i = i + 1;
    }
    assert(d.take(i - from) =~= d);
    Some(n)
}

proof fn lemma_no_digits(d: Seq<char>, n: int)
    requires
        0 <= n <= d.len(),
        digits_value(d.take(n)) is None,
    ensures
        digits_value(d) is None,
    decreases d.len() - n,
{
    if n < d.len() {
        assert(d.take(n + 1).drop_last() =~= d.take(n));
        lemma_no_digits(d, n + 1);
    } else {
        assert(d.take(n) =~= d);
    }
}

fn read_number(v: &[char]) -> (r: Option<u32>)
    ensures
        r == number_of(v@),
{
    let from: usize = if v.len() > 0 && v[0] == '+' {
        1
    } else {
        0
    };
    assert(v@.skip(0) =~= v@);
    assert(v@.len() > 0 ==> v@.skip(1) =~= v@.drop_first());
    if v.len() == from {
        None
    } else {
        read_digits(v, from)
    }
}

fn read_seconds(line: &Vec<char>) -> (r: Option<u32>)
    requires
        line@ == trim(line@),
    ensures
        r == seconds_of(line@),
{
    let name = first_word_chars(line);
    proof {
        lemma_word_len(line@);
    }
    let rest = trim_chars(&slice_chars(line, name.len(), line.len()));
    assert(line@.subrange(name@.len() as int, line@.len() as int) =~= line@.skip(
        name@.len() as int,
    ));
    if chars_are(&name, "timer") && rest.len() > 0 && same_chars(&first_word_chars(&rest), &rest) {
        match read_number(&rest) {
            Some(n) => if n > 0 {
                Some(n)
            } else {
                None
            },
            None => None,
        }
    } else {
        None
    }
}

proof fn lemma_word_len(s: Seq<char>)
    ensures
        word_of(s).len() <= s.len(),
        first_word(s).len() <= s.len(),
    decreases s.len(),
{
    if s.len() > 0 {
        lemma_word_len(s.drop_first());
    }
}

fn seconds_line(n: u32) -> (s: String)
    ensures
        s@ == seconds_text(n),
{
    let mut s = String::new();
    push_dec(&mut s, n as u128);
    s.append("s");
    assert(s@ =~= seconds_text(n));
    s
}

impl CommandEntry {
    /// A command that was entered.
    pub fn new(cmd: &str) -> (e: CommandEntry)
        ensures
            e@ == TimerModel::entered(cmd@),
    {
        let line = trim_chars(&chars_of(cmd));
        proof {
            crate::text::lemma_trim(cmd@);
        }
        let mut output_lines: Vec<String> = Vec::new();
        assert(texts(output_lines@) =~= Seq::empty());
        let timer = read_seconds(&line);
        let status = match timer {
            Some(n) => {
                push_text(&mut output_lines, seconds_line(n));
                CommandStatus::Running
            },
            None => {
                push_text(&mut output_lines, "command not found".to_owned());
                CommandStatus::Complete
            },
        };
        let e = CommandEntry { command: to_text(&line), output_lines, status, timer };
        assert(e@ =~= TimerModel::entered(cmd@));
        e
    }

    /// One second later. Gives whether anything changed.
    pub fn tick(&mut self) -> (changed: bool)
        ensures
            final(self)@ == old(self)@.ticked(),
            changed == (old(self)@.timer is Some),
    {
        let changed = match self.timer {
            Some(n) => {
                if n > 1 {
                    push_text(&mut self.output_lines, seconds_line(n - 1));
                    self.timer = Some(n - 1);
                } else {
                    push_text(&mut self.output_lines, "complete".to_owned());
                    self.status = CommandStatus::Complete;
                    self.timer = None;
                }
                true
            },
            None => false,
        };
        assert(self@ =~= old(self)@.ticked());
        changed
    }
}

/// One second later for all commands. Gives whether anything changed.
pub fn tick_all(commands: &mut Vec<CommandEntry>) -> (changed: bool)
    ensures
        timers(final(commands)@) == timers(old(commands)@).map_values(|m: TimerModel| m.ticked()),
        changed == exists|i: int|
            0 <= i < old(commands)@.len() && (#[trigger] timers(old(commands)@)[i]).timer is Some,
{
    let ghost before = timers(commands@);
    let mut changed = false;
    let mut i: usize = 0;
    while i < commands.len()
        invariant
            i <= commands@.len(),
            before == timers(old(commands)@),
            commands@.len() == before.len(),
            forall|k: int| 0 <= k < i ==> (#[trigger] commands@[k])@ == before[k].ticked(),
            forall|k: int| i <= k < before.len() ==> (#[trigger] commands@[k])@ == before[k],
            changed == exists|k: int| 0 <= k < i && (#[trigger] before[k]).timer is Some,
        decreases commands@.len() - i,
    {
        let one = commands[i].tick();
        assert(one == (before[i as int].timer is Some));
        if one {
            changed = true;
        }
        i = i + 1;
    }
    assert(timers(commands@) =~= before.map_values(|m: TimerModel| m.ticked()));
    changed
}

// ── The tree ─────────────────────────────────────────────────────────────────

/// The line of a command.
pub open spec fn command_row(m: TimerModel) -> Seq<char> {
    (if m.output_lines.len() > 0 {
        "  ├─┬ "@
    } else {
        "  ├─ "@
    }) + m.command
}

/// The line of output `i` of a command.
pub open spec fn output_row(m: TimerModel, i: int) -> Seq<char> {
    let last = i == m.output_lines.len() - 1;
    "  │ "@ + (if last {
        "└─ "@
    } else {
        "│─ "@
    }) + m.output_lines[i] + (if last && m.status == CommandStatus::Running {
        " (running)"@
    } else {
        ""@
    })
}

/// The lines of a command.
pub open spec fn rows_of(m: TimerModel) -> Seq<Seq<char>> {
    seq![command_row(m)] + Seq::new(m.output_lines.len(), |i: int| output_row(m, i))
}

/// The lines of the commands, under the path where there is one.
pub open spec fn panel_rows(c: Seq<TimerModel>, path: Seq<char>) -> Seq<Seq<char>>
    decreases c.len(),
{
    if c.len() == 0 {
        if path.len() > 0 {
            seq![path]
        } else {
            Seq::empty()
        }
    } else {
        panel_rows(c.drop_last(), path) + rows_of(c.last())
    }
}

fn push_command(lines: &mut Vec<String>, e: &CommandEntry)
    ensures
        texts(final(lines)@) == texts(old(lines)@) + rows_of(e@),
{
    let ghost m = e@;
    let ghost before = texts(lines@);
    let mut head = if e.output_lines.len() > 0 {
        "  ├─┬ ".to_owned()
    } else {
        "  ├─ ".to_owned()
    };
    head.append(e.command.as_str());
    assert(texts(e.output_lines@).len() == e.output_lines@.len());
    assert(head@ =~= command_row(m));
    push_text(lines, head);
    let ghost rows = Seq::new(m.output_lines.len(), |i: int| output_row(m, i));
    let mut i: usize = 0;
    assert(texts(lines@) =~= before + seq![command_row(m)] + rows.take(0));
    while i < e.output_lines.len()
        invariant
            i <= e.output_lines@.len(),
            m == e@,
            m.output_lines == texts(e.output_lines@),
            m.output_lines.len() == e.output_lines@.len(),
            m.status == e.status,
            rows == Seq::new(m.output_lines.len(), |i: int| output_row(m, i)),
            texts(lines@) == before + seq![command_row(m)] + rows.take(i as int),
        decreases e.output_lines@.len() - i,
    {
        let last = i == e.output_lines.len() - 1;
        let running = match e.status {
            CommandStatus::Running => true,
            CommandStatus::Complete => false,
        };
        let mut row = "  │ ".to_owned();
        row.append(
            if last {
                "└─ "
            } else {
                "│─ "
            },
        );
        row.append(e.output_lines[i].as_str());
        row.append(
            if last && running {
                " (running)"
            } else {
                ""
            },
        );
        assert(row@ =~= output_row(m, i as int));
        push_text(lines, row);
        assert(rows.take(i + 1) =~= rows.take(i as int).push(output_row(m, i as int)));
        assert(texts(lines@) =~= before + seq![command_row(m)] + rows.take(i + 1));
        i = i + 1;
    }
    assert(rows.take(i as int) =~= rows);
    assert(texts(lines@) =~= before + rows_of(m));
}

/// The lines of the commands, under the path where there is one.
pub fn build_panel_lines(commands: &[CommandEntry], path: &str) -> (lines: Vec<String>)
    ensures
        texts(lines@) == panel_rows(timers(commands@), path@),
{
    let ghost all = timers(commands@);
    let mut lines: Vec<String> = Vec::new();
    assert(texts(lines@) =~= Seq::empty());
    if chars_of(path).len() > 0 {
        push_text(&mut lines, path.to_owned());
    }
    let mut i: usize = 0;
    assert(all.take(0) =~= Seq::empty());
    assert(texts(lines@) =~= panel_rows(all.take(0), path@));
    while i < commands.len()
        invariant
            i <= commands@.len(),
            all == timers(commands@),
            texts(lines@) == panel_rows(all.take(i as int), path@),
        decreases commands@.len() - i,
    {
        assert(all.take(i + 1).drop_last() =~= all.take(i as int));
        push_command(&mut lines, &commands[i]);
        i = i + 1;
    }
    assert(all.take(i as int) =~= all);
    lines
}

} // verus!

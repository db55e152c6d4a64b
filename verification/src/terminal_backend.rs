//! What a session of a shell or program gives: the output of its reader, and its
//! end.
use vstd::prelude::*;
use vstd::string::*;
use crate::cmd::{LineSplitter, SplitModel};
use crate::text::{
    chars_of, lossy, lossy_text, push_text, texts, to_text, trim, trim_end, trim_end_chars,
};

verus! {

/// One event of a session.
#[derive(Debug)]
pub enum TerminalEvent<I> {
    Output { id: I, bytes: Vec<u8> },
    Exit { id: I, code: Option<i32> },
}

/// What the reader of a session reports: output as it was read, or its end.
#[derive(Debug)]
pub enum TerminalUpdate {
    Output(Vec<u8>),
    Closed,
}

/// What a session has given since it was asked last.
pub struct CommandPoll {
    pub outputs: Vec<Vec<u8>>,
    pub exit_code: Option<i32>,
}

/// The output among the updates, in their order.
pub open spec fn outputs_of(u: Seq<TerminalUpdate>) -> Seq<Vec<u8>>
    decreases u.len(),
{
    if u.len() == 0 {
        Seq::empty()
    } else {
        match u.last() {
            TerminalUpdate::Output(b) => outputs_of(u.drop_last()).push(b),
            TerminalUpdate::Closed => outputs_of(u.drop_last()),
        }
    }
}

/// The events of a poll: the outputs, and the end behind them.
pub open spec fn events_of(outputs: Seq<Vec<u8>>, exit_code: Option<i32>) -> Seq<TerminalEvent<()>> {
    let front = Seq::new(
        outputs.len(),
        |i: int| TerminalEvent::Output { id: (), bytes: outputs[i] },
    );
    match exit_code {
        Some(c) => front.push(TerminalEvent::Exit { id: (), code: Some(c) }),
        None => front,
    }
}

impl CommandPoll {
    /// What the updates of a reader and the state of the process amount to.
    pub fn collect(updates: Vec<TerminalUpdate>, exit_code: Option<i32>) -> (p: CommandPoll)
        ensures
            p.outputs@ == outputs_of(updates@),
            p.exit_code == exit_code,
    {
        let mut rest = updates;
        let mut outputs: Vec<Vec<u8>> = Vec::new();
        let ghost all = updates@;
        assert(all.take(all.len() as int) =~= all);
        let ghost mut behind = Seq::<Vec<u8>>::empty();
        while rest.len() > 0
            invariant
                rest@ == all.take(rest@.len() as int),
                rest@.len() <= all.len(),
                behind == outputs@.reverse(),
                outputs_of(all) == outputs_of(rest@) + behind,
            decreases rest@.len(),
        {
            let ghost before = rest@;
            match rest.pop() {
                Some(TerminalUpdate::Output(b)) => {
                    outputs.push(b);
                    proof {
                        assert(rest@ =~= before.drop_last());
                        assert(outputs@.reverse() =~= seq![b] + behind);
                        assert(outputs_of(rest@).push(b) + behind =~= outputs_of(rest@) + (seq![b]
                            + behind));
                        behind = seq![b] + behind;
                    }
                },
                Some(TerminalUpdate::Closed) => {
                    assert(rest@ =~= before.drop_last());
                },
                None => {},
            }
            assert(rest@ =~= all.take(rest@.len() as int));
        }
        assert(outputs_of(rest@) + behind =~= behind);
        let mut ordered: Vec<Vec<u8>> = Vec::new();
        let ghost reversed = outputs@;
        while outputs.len() > 0
            invariant
                outputs@ == reversed.take(outputs@.len() as int),
                outputs@.len() <= reversed.len(),
                ordered@ == reversed.skip(outputs@.len() as int).reverse(),
            decreases outputs@.len(),
        {
            match outputs.pop() {
                Some(b) => {
                    ordered.push(b);
                    assert(ordered@ =~= reversed.skip(outputs@.len() as int).reverse());
                },
                None => {},
            }
            assert(outputs@ =~= reversed.take(outputs@.len() as int));
        }
        assert(reversed.skip(0) =~= reversed);
        CommandPoll { outputs: ordered, exit_code }
    }

    /// The events of the poll.
    pub fn into_events(self) -> (v: Vec<TerminalEvent<()>>)
        ensures
            v@ == events_of(self.outputs@, self.exit_code),
    {
        let mut rest = self.outputs;
        let ghost all = self.outputs@;
        let mut back: Vec<Vec<u8>> = Vec::new();
        while rest.len() > 0
            invariant
                rest@ == all.take(rest@.len() as int),
                rest@.len() <= all.len(),
                back@ == all.skip(rest@.len() as int).reverse(),
            decreases rest@.len(),
        {
            match rest.pop() {
                Some(b) => {
                    back.push(b);
                    assert(back@ =~= all.skip(rest@.len() as int).reverse());
                },
                None => {},
            }
            assert(rest@ =~= all.take(rest@.len() as int));
        }
        assert(back@ =~= all.reverse());
        let mut v: Vec<TerminalEvent<()>> = Vec::new();
        while back.len() > 0
            invariant
                back@.len() + v@.len() == all.len(),
                back@ == all.skip(v@.len() as int).reverse(),
                forall|i: int|
                    0 <= i < v@.len() ==> #[trigger] v@[i] == (TerminalEvent::Output {
                        id: (),
                        bytes: all[i],
                    }),
            decreases back@.len(),
        {
            let ghost before = back@;
            let ghost n = v@.len() as int;
            match back.pop() {
                Some(b) => {
                    assert(before.last() == all.skip(n).reverse()[before.len() - 1]);
                    assert(b == all[n]);
                    v.push(TerminalEvent::Output { id: (), bytes: b });
                    assert(back@ =~= all.skip(n + 1).reverse());
                },
                None => {},
            }
        }
        match self.exit_code {
            Some(c) => v.push(TerminalEvent::Exit { id: (), code: Some(c) }),
            None => {},
        }
        assert(v@ =~= events_of(all, self.exit_code));
        v
    }
}

// ── Lines of a piped session ─────────────────────────────────────────────────

/// How long text without a line break waits for one.
pub const PARTIAL_MILLIS: u64 = 50;

/// The stream of a piped session: the text behind the last line break, and when
/// lines were given last.
#[verifier::ext_equal]
pub struct StreamModel {
    pub rest: Seq<char>,
    pub last: u64,
}

impl StreamModel {
    /// A piece of the stream that came at `now`: the stream behind it, and the lines
    /// to give. A prompt has no line break: text that has waited long enough is given
    /// as a line of its own.
    pub open spec fn fed(self, text: Seq<char>, now: u64) -> (StreamModel, Seq<Seq<char>>) {
        let m = SplitModel { lines: Seq::empty(), rest: self.rest }.run(text);
        let last = if text.contains('\n') {
            now
        } else {
            self.last
        };
        if m.rest.len() > 0 && now - last >= PARTIAL_MILLIS {
            let part = trim_end(m.rest);
            (
                StreamModel { rest: Seq::empty(), last: now },
                if part.len() > 0 {
                    m.lines.push(part)
                } else {
                    m.lines
                },
            )
        } else {
            (StreamModel { rest: m.rest, last }, m.lines)
        }
    }
}

/// Cuts the stream of a piped session into lines.
pub struct LineStream {
    splitter: LineSplitter,
    last: u64,
}

impl View for LineStream {
    type V = StreamModel;

    closed spec fn view(&self) -> StreamModel {
        StreamModel { rest: self.splitter.rest(), last: self.last }
    }
}

fn has_break(text: &str) -> (r: bool)
    ensures
        r == text@.contains('\n'),
{
    let v = chars_of(text);
    let mut i: usize = 0;
    while i < v.len()
        invariant
            i <= v@.len(),
            v@ == text@,
            forall|k: int| 0 <= k < i ==> v@[k] != '\n',
        decreases v@.len() - i,
    {
        if v[i] == '\n' {
            assert(text@[i as int] == '\n');
            return true;
        }
        i = i + 1;
    }
    false
}

impl LineStream {
    pub fn new(now: u64) -> (s: LineStream)
        ensures
            s@ == (StreamModel { rest: Seq::empty(), last: now }),
    {
        LineStream { splitter: LineSplitter::new(), last: now }
    }

    /// Takes in bytes that came at `now`; gives the lines.
    pub fn feed(&mut self, bytes: &[u8], now: u64) -> (lines: Vec<String>)
        ensures
            (final(self)@, texts(lines@)) == old(self)@.fed(lossy_text(bytes@), now),
    {
        let text = lossy(bytes);
        let mut lines = self.splitter.feed(text.as_str());
        if has_break(text.as_str()) {
            self.last = now;
        }
        let rest = chars_of(self.splitter.rest_text().as_str());
        if rest.len() > 0 && now >= self.last && now - self.last >= PARTIAL_MILLIS {
            let part = trim_end_chars(&rest);
            if part.len() > 0 {
                push_text(&mut lines, to_text(&part));
            }
            self.splitter = LineSplitter::new();
            self.last = now;
        }
        lines
    }

    /// The stream has ended: what is left is a line of its own, unless it is white
    /// space.
    pub fn finish(&self) -> (line: Option<String>)
        ensures
            match line {
                Some(t) => t@ == trim(self@.rest) && t@.len() > 0,
                None => trim(self@.rest).len() == 0,
            },
    {
        self.splitter.finish()
    }
}

} // verus!

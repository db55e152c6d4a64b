//! What a terminal on a pipe does with keys, lines and output.
use vstd::prelude::*;
use vstd::utf8::{
    encode_scalar, encode_utf8, last_continuation_byte, leading_byte_width_1,
    leading_byte_width_2, leading_byte_width_3, leading_byte_width_4,
    second_last_continuation_byte, third_last_continuation_byte,
};
use crate::app::terminal::{newest, without_last_char, TermStateModel};
use crate::os::Key;
use crate::ui::damage::{lemma_width_four, lemma_width_one, lemma_width_three, lemma_width_two};

verus! {

proof fn lemma_last_char_gone(line: Seq<u8>, first: u8, rest: Seq<u8>)
    requires
        !(0x80 <= first < 0xc0),
        forall|i: int| 0 <= i < rest.len() ==> 0x80 <= #[trigger] rest[i] < 0xc0,
    ensures
        without_last_char(line.push(first) + rest) == line,
    decreases rest.len(),
{
    let all = line.push(first) + rest;
    if rest.len() == 0 {
        assert(all =~= line.push(first));
        assert(all.drop_last() =~= line);
    } else {
        lemma_last_char_gone(line, first, rest.drop_last());
        assert(all.last() == rest[rest.len() - 1]);
        assert(all.drop_last() =~= line.push(first) + rest.drop_last());
    }
}

/// A character that is erased is gone with all of its bytes.
pub proof fn lemma_char_erased(line: Seq<u8>, c: char)
    ensures
        without_last_char(line + encode_utf8(seq![c])) == line,
{
    let n = c as u32;
    reveal_with_fuel(encode_utf8, 2);
    assert(seq![c].drop_first() =~= Seq::empty());
    assert(encode_utf8(seq![c]) =~= encode_scalar(n));
    if n <= 0x7f {
        lemma_width_one(n);
        let a = leading_byte_width_1(n);
        assert(line + encode_scalar(n) =~= line.push(a) + Seq::empty());
        lemma_last_char_gone(line, a, Seq::empty());
    } else if n <= 0x7ff {
        lemma_width_two(n);
        let (a, b) = (leading_byte_width_2(n), last_continuation_byte(n));
        assert(line + encode_scalar(n) =~= line.push(a) + seq![b]);
        lemma_last_char_gone(line, a, seq![b]);
    } else if n <= 0xffff {
        lemma_width_three(n);
        let (a, b) = (leading_byte_width_3(n), second_last_continuation_byte(n));
        let d = last_continuation_byte(n);
        assert(line + encode_scalar(n) =~= line.push(a) + seq![b, d]);
        lemma_last_char_gone(line, a, seq![b, d]);
    } else {
        lemma_width_four(n);
        let (a, b) = (leading_byte_width_4(n), third_last_continuation_byte(n));
        let (d, e) = (second_last_continuation_byte(n), last_continuation_byte(n));
        assert(line + encode_scalar(n) =~= line.push(a) + seq![b, d, e]);
        lemma_last_char_gone(line, a, seq![b, d, e]);
    }
}

/// A character typed on a pipe goes to the end of the line; Backspace takes it off again.
pub proof fn lemma_pipe_typed_and_erased(t: TermStateModel, c: char)
    requires
        t.emulator is None,
    ensures
        ({
            let typed = t.piped(Key::Char(c));
            &&& typed.pipe_line == t.pipe_line + encode_utf8(seq![c])
            &&& typed.piped(Key::Backspace).pipe_line == t.pipe_line
        }),
{
    reveal(crate::app::desktop::program::plain_bytes);
    lemma_char_erased(t.pipe_line, c);
}

/// Up recalls what was sent last, each further Up what was sent before it, to the first;
/// Down goes the other way, and behind the last to what was being typed.
pub proof fn lemma_pipe_recalled_in_order(t: TermStateModel, i: usize)
    requires
        t.emulator is None,
        t.pipe_history.len() <= usize::MAX,
        i < t.pipe_history.len(),
    ensures
        t.pipe_hist_idx is None ==> t.piped(Key::Up).pipe_line == encode_utf8(
            t.pipe_history.last(),
        ) && t.piped(Key::Up).pipe_hist_idx == Some((t.pipe_history.len() - 1) as usize),
        t.pipe_hist_idx is None ==> t.piped(Key::Down) == t,
        t.pipe_hist_idx == Some(i) && i > 0 ==> t.piped(Key::Up).pipe_line == encode_utf8(
            t.pipe_history[i - 1],
        ),
        t.pipe_hist_idx == Some(i) && i == 0 ==> t.piped(Key::Up) == t,
        t.pipe_hist_idx == Some(i) && i + 1 < t.pipe_history.len() ==> t.piped(
            Key::Down,
        ).pipe_line == encode_utf8(t.pipe_history[i + 1]),
        t.pipe_hist_idx == Some(i) && i + 1 == t.pipe_history.len() && t.pipe_draft is Some
            ==> t.piped(Key::Down).pipe_line == encode_utf8(t.pipe_draft->0) && t.piped(
            Key::Down,
        ).pipe_hist_idx is None,
{
}

/// Enter on a pipe begins a new line, and remembers the one that was sent unless it repeats
/// the last; Ctrl with C gives the line up and remembers nothing.
pub proof fn lemma_pipe_entered(t: TermStateModel)
    ensures
        t.piped(Key::Enter).pipe_line.len() == 0,
        t.piped(Key::CtrlC).pipe_line.len() == 0,
        t.piped(Key::CtrlC).pipe_history == t.pipe_history,
        t.pipe_sends(Key::CtrlC) is None,
        t.session is Some ==> t.pipe_sends(Key::Enter) == Some(t.pipe_text()),
{
}

/// Of a list only the newest are kept, in their order.
pub proof fn lemma_newest_kept(s: Seq<Seq<char>>, one: Seq<char>, n: int)
    requires
        n > 0,
    ensures
        ({
            let r = newest(s.push(one), n);
            &&& r.last() == one
            &&& r.len() == (if s.len() + 1 < n {
                s.len() as int + 1
            } else {
                n
            })
            &&& forall|k: int|
                0 <= k < r.len() - 1 ==> #[trigger] r[k] == s[s.len() - (r.len() - 1) + k]
        }),
{
}

/// A line of output is shown below the others; a prompt is shown as such, and no line.
pub proof fn lemma_output_line_shown(t: TermStateModel, line: Seq<char>)
    ensures
        crate::app::terminal::is_prompt(line) ==> t.ingested(line).shell_lines == t.shell_lines
            && t.ingested(line).repl_prompt == Some(crate::text::trim(line)),
        !crate::app::terminal::is_prompt(line) ==> t.ingested(line).shell_lines.len() > 0
            && t.ingested(line).shell_lines.last() == line && t.ingested(line).repl_prompt
            == t.repl_prompt,
{
}

} // verus!

//! The escape sequences that the screen is drawn with, read by the emulator: they
//! do there what they are written for.
use vstd::prelude::*;
use vstd::utf8::{encode_utf8, is_ascii_chars, is_ascii_chars_encode_utf8};
use crate::terminal_emulator::{
    blanks, extended_color, lemma_alt_text, lemma_chunks, param_list, plain_style, sgr_at, sgr_from,
    sgr_width, Cursor, ParseState, Style, TermModel, PARAM_SEP,
};
use crate::text::{dec, lemma_dec};
use crate::ui::ansi::{move_text, params_text, sgr_codes, sgr_text, sgr_texts};
use crate::ui::damage::lemma_move_text;
use crate::ui::screen::{listed_color, listed_width, styled_at, styled_from};
use crate::ui::transitions::{
    after_codes, all_in_range, ascii, in_range, known, lemma_params, lemma_sgr_codes,
    lemma_texts_ascii,
};

verus! {

// ── Parameters ───────────────────────────────────────────────────────────────

/// The digits of `n`.
spec fn digits(n: nat) -> Seq<u32>
    decreases n,
{
    if n < 10 {
        seq![n as u32]
    } else {
        digits(n / 10).push((n % 10) as u32)
    }
}

/// The digits of `p`, with the separator between two numbers.
spec fn spelled(p: Seq<u32>) -> Seq<u32>
    decreases p.len(),
{
    if p.len() == 0 {
        Seq::empty()
    } else if p.len() == 1 {
        digits(p[0] as nat)
    } else {
        spelled(p.drop_last()).push(PARAM_SEP) + digits(p.last() as nat)
    }
}

proof fn lemma_digits_list(n: nat, rest: Seq<u32>)
    requires
        n <= 0xffff,
    ensures
        param_list(digits(n) + rest, None) == param_list(rest, Some(n as u32)),
    decreases n,
{
    let t = digits(n) + rest;
    if n < 10 {
        assert(t.drop_first() =~= rest);
        assert(t[0] == n as u32);
    } else {
        let one = seq![(n % 10) as u32] + rest;
        lemma_digits_list(n / 10, one);
        assert(t =~= digits(n / 10) + one);
        assert(one.drop_first() =~= rest);
        assert(one[0] == (n % 10) as u32);
    }
}

proof fn lemma_spelled_list(p: Seq<u32>, rest: Seq<u32>)
    requires
        in_range(p),
    ensures
        param_list(spelled(p) + rest, None) == p.drop_last() + param_list(rest, Some(p.last())),
    decreases p.len(),
{
    if p.len() == 1 {
        lemma_digits_list(p[0] as nat, rest);
        assert(p.drop_last() + param_list(rest, Some(p.last())) =~= param_list(
            rest,
            Some(p.last()),
        ));
    } else {
        let front = p.drop_last();
        let tail = digits(p.last() as nat) + rest;
        let after = seq![PARAM_SEP] + tail;
        lemma_spelled_list(front, after);
        assert(spelled(p) + rest =~= spelled(front) + after);
        assert(after.drop_first() =~= tail);
        lemma_digits_list(p.last() as nat, rest);
        let end = param_list(rest, Some(p.last()));
        assert(param_list(after, Some(front.last())) == seq![front.last()] + end);
        assert(front.drop_last() + (seq![front.last()] + end) =~= front + end);
    }
}

/// The state after the bytes `s`.
#[verifier::opaque]
spec fn after(m: TermModel, s: Seq<u8>) -> TermModel {
    m.run(s)
}

proof fn lemma_after_join(m: TermModel, a: Seq<u8>, b: Seq<u8>)
    ensures
        after(m, a + b) == after(after(m, a), b),
{
    reveal(after);
    lemma_chunks(m, a, b);
}

proof fn lemma_after_one(m: TermModel, b: u8)
    ensures
        after(m, seq![b]) == m.step(b),
{
    reveal(after);
    assert(seq![b].drop_last() =~= Seq::empty());
    assert(m.run(seq![b].drop_last()) == m);
    assert(m.run(seq![b]) == m.run(seq![b].drop_last()).step(seq![b].last()));
}

proof fn lemma_digit_byte(m: TermModel, d: nat)
    requires
        m.parse is Csi,
        d < 10,
    ensures
        after(m, seq![(0x30 + d) as u8]) == (TermModel { params: m.params.push(d as u32), ..m }),
{
    lemma_after_one(m, (0x30 + d) as u8);
}

proof fn lemma_separator_byte(m: TermModel)
    requires
        m.parse is Csi,
    ensures
        after(m, seq![0x3bu8]) == (TermModel { params: m.params.push(PARAM_SEP), ..m }),
{
    lemma_after_one(m, 0x3b);
}

proof fn lemma_start_bytes(m: TermModel)
    requires
        m.parse is Ground,
    ensures
        after(m, seq![0x1bu8, 0x5bu8]) == (TermModel {
            parse: ParseState::Csi,
            params: Seq::empty(),
            private: None,
            ..m
        }),
{
    assert(seq![0x1bu8, 0x5bu8] =~= seq![0x1bu8] + seq![0x5bu8]);
    lemma_after_join(m, seq![0x1bu8], seq![0x5bu8]);
    lemma_after_one(m, 0x1b);
    lemma_after_one(m.step(0x1b), 0x5b);
}

proof fn lemma_mark_byte(m: TermModel)
    requires
        m.parse is Csi,
        m.private is None,
    ensures
        after(m, seq![0x3fu8]) == (TermModel { private: Some(0x3f), ..m }),
{
    lemma_after_one(m, 0x3f);
}

proof fn lemma_last_byte(m: TermModel, p: Seq<u32>, b: u8)
    requires
        m.parse is Csi,
        param_list(m.params, None) == p,
        0x40 <= b <= 0x7e,
    ensures
        ({
            let rest = TermModel { params: Seq::empty(), private: None, ..m };
            after(m, seq![b]) == (TermModel {
                parse: ParseState::Ground,
                ..rest.dispatched(p, m.private, b)
            })
        }),
{
    lemma_after_one(m, b);
}

proof fn lemma_digit_bytes(m: TermModel, n: nat)
    requires
        m.parse is Csi,
        n <= 0xffff,
    ensures
        after(m, ascii(dec(n))) == (TermModel { params: m.params + digits(n), ..m }),
    decreases n,
{
    lemma_dec(n);
    if n < 10 {
        lemma_digit_byte(m, n);
        assert(ascii(dec(n)) =~= seq![(0x30 + n) as u8]);
        assert(m.params.push(n as u32) =~= m.params + digits(n));
    } else {
        let a = ascii(dec(n / 10));
        let b = seq![(0x30 + n % 10) as u8];
        lemma_digit_bytes(m, n / 10);
        assert(ascii(dec(n)) =~= a + b);
        lemma_after_join(m, a, b);
        lemma_digit_byte(after(m, a), n % 10);
        assert((m.params + digits(n / 10)).push((n % 10) as u32) =~= m.params + digits(n));
    }
}

proof fn lemma_param_bytes(m: TermModel, p: Seq<u32>)
    requires
        m.parse is Csi,
        in_range(p),
    ensures
        after(m, ascii(params_text(p))) == (TermModel { params: m.params + spelled(p), ..m }),
    decreases p.len(),
{
    let d = ascii(dec(p.last() as nat));
    if p.len() == 1 {
        lemma_digit_bytes(m, p[0] as nat);
    } else {
        let front = p.drop_last();
        let a = ascii(params_text(front));
        let sep = seq![0x3bu8];
        lemma_param_bytes(m, front);
        assert(ascii(params_text(p)) =~= (a + sep) + d);
        lemma_after_join(m, a + sep, d);
        lemma_after_join(m, a, sep);
        lemma_separator_byte(after(m, a));
        let read = after(m, a + sep);
        lemma_digit_bytes(read, p.last() as nat);
        assert(read.params + digits(p.last() as nat) =~= m.params + spelled(p));
    }
}

/// A sequence with the parameters `p`, as the emulator reads it.
proof fn lemma_sequence(m: TermModel, p: Seq<u32>, b: u8)
    requires
        m.parse is Ground,
        in_range(p),
        0x40 <= b <= 0x7e,
    ensures
        ({
            let t = seq![0x1bu8, 0x5bu8] + ascii(params_text(p)) + seq![b];
            let idle = TermModel { parse: ParseState::Csi, params: Seq::empty(), private: None, ..m };
            after(m, t) == (TermModel {
                parse: ParseState::Ground,
                ..idle.dispatched(p, None, b)
            })
        }),
{
    let head = seq![0x1bu8, 0x5bu8];
    let body = ascii(params_text(p));
    lemma_after_join(m, head + body, seq![b]);
    lemma_after_join(m, head, body);
    lemma_start_bytes(m);
    let idle = after(m, head);
    lemma_param_bytes(idle, p);
    assert(idle.params + spelled(p) =~= spelled(p));
    lemma_spelled_list(p, Seq::empty());
    assert(spelled(p) + Seq::<u32>::empty() =~= spelled(p));
    assert(p.drop_last() + param_list(Seq::empty(), Some(p.last())) =~= p);
    lemma_last_byte(after(m, head + body), p, b);
}

/// A sequence with the mark `?` and the parameters `p`, as the emulator reads it.
proof fn lemma_marked_sequence(m: TermModel, p: Seq<u32>, b: u8)
    requires
        m.parse is Ground,
        in_range(p),
        0x40 <= b <= 0x7e,
    ensures
        ({
            let t = seq![0x1bu8, 0x5bu8] + seq![0x3fu8] + ascii(params_text(p)) + seq![b];
            let idle = TermModel { parse: ParseState::Csi, params: Seq::empty(), private: None, ..m };
            after(m, t) == (TermModel {
                parse: ParseState::Ground,
                ..idle.dispatched(p, Some(0x3f), b)
            })
        }),
{
    let head = seq![0x1bu8, 0x5bu8];
    let mark = seq![0x3fu8];
    let body = ascii(params_text(p));
    lemma_after_join(m, head + mark + body, seq![b]);
    lemma_after_join(m, head + mark, body);
    lemma_after_join(m, head, mark);
    lemma_start_bytes(m);
    lemma_mark_byte(after(m, head));
    let idle = after(m, head + mark);
    lemma_param_bytes(idle, p);
    assert(idle.params + spelled(p) =~= spelled(p));
    lemma_spelled_list(p, Seq::empty());
    assert(spelled(p) + Seq::<u32>::empty() =~= spelled(p));
    assert(p.drop_last() + param_list(Seq::empty(), Some(p.last())) =~= p);
    lemma_last_byte(after(m, head + mark + body), p, b);
}

/// The effect of a sequence with the parameters `p`.
pub(crate) proof fn lemma_sequence_run(m: TermModel, p: Seq<u32>, b: u8)
    requires
        m.parse is Ground,
        in_range(p),
        0x40 <= b <= 0x7e,
    ensures
        ({
            let t = seq![0x1bu8, 0x5bu8] + ascii(params_text(p)) + seq![b];
            let read = TermModel { parse: ParseState::Csi, params: Seq::empty(), private: None, ..m };
            m.run(t) == (TermModel { parse: ParseState::Ground, ..read.dispatched(p, None, b) })
        }),
{
    lemma_sequence(m, p, b);
    reveal(after);
}

/// The effect of a sequence without parameters.
pub(crate) proof fn lemma_bare_sequence_run(m: TermModel, b: u8)
    requires
        m.parse is Ground,
        0x40 <= b <= 0x7e,
    ensures
        ({
            let read = TermModel { parse: ParseState::Csi, params: Seq::empty(), private: None, ..m };
            m.run(seq![0x1bu8, 0x5bu8, b]) == (TermModel {
                parse: ParseState::Ground,
                ..read.dispatched(Seq::empty(), None, b)
            })
        }),
{
    let head = seq![0x1bu8, 0x5bu8];
    assert(seq![0x1bu8, 0x5bu8, b] =~= head + seq![b]);
    lemma_after_join(m, head, seq![b]);
    lemma_start_bytes(m);
    lemma_last_byte(after(m, head), Seq::empty(), b);
    assert(after(m, head + seq![b]) == m.run(head + seq![b])) by {
        reveal(after);
    }
}

/// The effect of one byte.
pub(crate) proof fn lemma_byte_run(m: TermModel, b: u8)
    ensures
        m.run(seq![b]) == m.step(b),
{
    lemma_after_one(m, b);
    reveal(after);
}

proof fn lemma_position_sequence(m: TermModel, x: u16, y: u16)
    requires
        x < m.cols,
        y < m.rows,
    ensures
        m.dispatched(seq![(y + 1) as u32, (x + 1) as u32], None, 0x48) == m.moved(x, y),
{
}

proof fn lemma_style_sequence(m: TermModel, p: Seq<u32>)
    ensures
        m.dispatched(p, None, 0x6d) == (TermModel { style: sgr_from(m.style, p, 0), ..m }),
{
}

// ── Positions ────────────────────────────────────────────────────────────────

/// Fed to the emulator between two sequences, what `move_to` writes takes the
/// cursor to that cell and changes nothing on either screen.
pub proof fn lemma_move_emulated(m: TermModel, x: u16, y: u16)
    requires
        m.parse is Ground,
        x < m.cols,
        y < m.rows,
    ensures
        ({
            let n = m.run(encode_utf8(move_text(x as int, y as int)));
            n == TermModel {
                cursor: Cursor { x, y, visible: m.cursor.visible },
                pending_wrap: false,
                params: n.params,
                private: n.private,
                ..m
            }
        }),
{
    let p = seq![(y + 1) as u32, (x + 1) as u32];
    lemma_move_text(x as int, y as int);
    lemma_params(p);
    let t = move_text(x as int, y as int);
    assert(is_ascii_chars(t)) by {
        assert forall|i: int| 0 <= i < t.len() implies 0 <= #[trigger] t[i] as int && t[i] as int
            <= 127 by {
            if 2 <= i < t.len() - 1 {
                assert(t[i] == params_text(p)[i - 2]);
            }
        }
    }
    is_ascii_chars_encode_utf8(t);
    assert(encode_utf8(t) =~= seq![0x1bu8, 0x5bu8] + ascii(params_text(p)) + seq![0x48u8]);
    lemma_sequence(m, p, 0x48);
    let idle = TermModel { parse: ParseState::Csi, params: Seq::empty(), private: None, ..m };
    lemma_position_sequence(idle, x, y);
    assert(after(m, encode_utf8(t)) == m.run(encode_utf8(t))) by {
        reveal(after);
    }
}

// ── Modes ────────────────────────────────────────────────────────────────────

/// The state between two sequences, with nothing left of the last one.
pub open spec fn idle(m: TermModel) -> TermModel {
    TermModel { params: Seq::empty(), private: None, ..m }
}

/// One mode switched on or off, as it is written.
spec fn mode_text(mode: u32, on: bool) -> Seq<char> {
    seq!['\u{1b}', '[', '?'] + dec(mode as nat) + seq![
        if on {
            'h'
        } else {
            'l'
        },
    ]
}

proof fn lemma_one_mode(m: TermModel, mode: u32, on: bool)
    ensures
        m.modes_set(seq![mode], on) == m.mode_set(mode, on),
{
    let p = seq![mode];
    assert(p.drop_last() =~= Seq::empty());
    assert(m.modes_set(p.drop_last(), on) == m);
}

proof fn lemma_mode(m: TermModel, mode: u32, on: bool)
    requires
        m.parse is Ground,
        mode <= 0xffff,
    ensures
        m.run(encode_utf8(mode_text(mode, on))) == idle(m).mode_set(mode, on),
{
    let p = seq![mode];
    let t = mode_text(mode, on);
    let b: u8 = if on {
        0x68
    } else {
        0x6c
    };
    assert(params_text(p) == dec(mode as nat));
    lemma_params(p);
    assert(is_ascii_chars(t)) by {
        assert forall|i: int| 0 <= i < t.len() implies 0 <= #[trigger] t[i] as int && t[i] as int
            <= 127 by {
            if 3 <= i < t.len() - 1 {
                assert(t[i] == params_text(p)[i - 3]);
            }
        }
    }
    is_ascii_chars_encode_utf8(t);
    assert(encode_utf8(t) =~= seq![0x1bu8, 0x5bu8] + seq![0x3fu8] + ascii(params_text(p)) + seq![
        b,
    ]);
    lemma_marked_sequence(m, p, b);
    let read = TermModel { parse: ParseState::Csi, params: Seq::empty(), private: None, ..m };
    lemma_mode_sequence(read, mode, on);
    assert(after(m, encode_utf8(t)) == m.run(encode_utf8(t))) by {
        reveal(after);
    }
}

proof fn lemma_mode_sequence(m: TermModel, mode: u32, on: bool)
    ensures
        m.dispatched(
            seq![mode],
            Some(0x3f),
            if on {
                0x68
            } else {
                0x6c
            },
        ) == m.mode_set(mode, on),
{
    lemma_one_mode(m, mode, on);
}

/// What `hide_cursor`, `show_cursor`, `enter_alt_screen` and `leave_alt_screen` write.
proof fn lemma_mode_texts()
    ensures
        "\u{1b}[?25l"@ == mode_text(25, false),
        "\u{1b}[?25h"@ == mode_text(25, true),
        "\u{1b}[?1049l"@ == mode_text(1049, false),
        "\u{1b}[?1049h"@ == mode_text(1049, true),
{
    reveal_strlit("\u{1b}[?25l");
    reveal_strlit("\u{1b}[?25h");
    reveal_strlit("\u{1b}[?1049l");
    reveal_strlit("\u{1b}[?1049h");
    reveal_with_fuel(dec, 4);
    assert(dec(25) =~= seq!['2', '5']);
    assert(dec(1049) =~= seq!['1', '0', '4', '9']);
    assert("\u{1b}[?25l"@ =~= mode_text(25, false));
    assert("\u{1b}[?25h"@ =~= mode_text(25, true));
    assert("\u{1b}[?1049l"@ =~= mode_text(1049, false));
    assert("\u{1b}[?1049h"@ =~= mode_text(1049, true));
}

/// `m` with the cursor visible or not.
pub open spec fn with_visible(m: TermModel, visible: bool) -> TermModel {
    TermModel { cursor: Cursor { visible, ..m.cursor }, ..m }
}

/// Fed to the emulator between two sequences, what `hide_cursor` writes makes the
/// cursor invisible, what `show_cursor` writes makes it visible, and neither changes
/// anything else.
pub proof fn lemma_cursor_emulated(m: TermModel)
    requires
        m.parse is Ground,
    ensures
        m.run(encode_utf8("\u{1b}[?25l"@)) == with_visible(idle(m), false),
        m.run(encode_utf8("\u{1b}[?25h"@)) == with_visible(idle(m), true),
{
    lemma_mode_texts();
    lemma_mode(m, 25, false);
    lemma_mode(m, 25, true);
}

/// What `show_cursor` writes undoes what `hide_cursor` writes.
pub proof fn lemma_cursor_shown_again(m: TermModel)
    requires
        m.parse is Ground,
        m.cursor.visible,
    ensures
        m.run(encode_utf8("\u{1b}[?25l"@)).run(encode_utf8("\u{1b}[?25h"@)) == idle(m),
{
    lemma_cursor_emulated(m);
    lemma_cursor_emulated(with_visible(idle(m), false));
}

/// Fed to the emulator between two sequences, what `enter_alt_screen` writes shows a
/// blank screen with a visible cursor in its corner, and leaves the main screen and
/// the scrollback as they were. Where the alternate screen is shown already, nothing
/// changes.
pub proof fn lemma_alt_entered_emulated(m: TermModel)
    requires
        m.parse is Ground,
    ensures
        ({
            let n = m.run(encode_utf8("\u{1b}[?1049h"@));
            &&& n == idle(m).alt_entered()
            &&& n.run(encode_utf8("\u{1b}[?1049h"@)) == n
            &&& m.alt_active ==> n == idle(m)
            &&& !m.alt_active ==> {
                &&& n.cells() == blanks(m.cols * m.rows)
                &&& n.cursor == Cursor { x: 0, y: 0, visible: true }
                &&& n.scrollback == m.scrollback
                &&& n.main == m.main
            }
        }),
{
    lemma_mode_texts();
    lemma_mode(m, 1049, true);
    let n = idle(m).alt_entered();
    lemma_mode(n, 1049, true);
}

/// Fed to the emulator between two sequences, what `leave_alt_screen` writes shows
/// the main screen again, with the saved cursor. Where it is shown already, nothing
/// changes.
pub proof fn lemma_alt_left_emulated(m: TermModel)
    requires
        m.parse is Ground,
    ensures
        m.run(encode_utf8("\u{1b}[?1049l"@)) == idle(m).alt_left(),
        !m.alt_active ==> m.run(encode_utf8("\u{1b}[?1049l"@)) == idle(m),
{
    lemma_mode_texts();
    lemma_mode(m, 1049, false);
}

/// Text and controls, carriage returns and line feeds among them, that are fed
/// between what `enter_alt_screen` and `leave_alt_screen` write leave no trace: the
/// scrollback and every row of the main screen are as they were before.
pub proof fn lemma_alt_leaves_no_trace(m: TermModel, bytes: Seq<u8>)
    requires
        m.parse is Ground,
        !m.alt_active,
        forall|i: int| 0 <= i < bytes.len() ==> #[trigger] bytes[i] != 0x1b,
    ensures
        ({
            let n = m.run(encode_utf8("\u{1b}[?1049h"@)).run(bytes).run(
                encode_utf8("\u{1b}[?1049l"@),
            );
            &&& !n.alt_active
            &&& n.parse is Ground
            &&& n.cols == m.cols
            &&& n.rows == m.rows
            &&& n.main == m.main
            &&& n.scrollback == m.scrollback
            &&& n.cursor == m.saved
            &&& n.total_lines() == m.total_lines()
            &&& forall|i: int| #[trigger] n.line(i) == m.line(i)
        }),
{
    lemma_alt_entered_emulated(m);
    let entered = idle(m).alt_entered();
    lemma_alt_text(entered, bytes);
    lemma_alt_left_emulated(entered.run(bytes));
}

// ── Styles ───────────────────────────────────────────────────────────────────

/// Numbers that are all there select the same style on both sides.
proof fn lemma_same_style(s: Style, p: Seq<u32>, i: int)
    requires
        in_range(p),
        0 <= i,
    ensures
        styled_from(s, known(p), i) == sgr_from(s, p, i),
    decreases p.len() - i,
{
    let k = known(p);
    if i < p.len() {
        assert forall|j: int| 0 <= j < p.len() implies #[trigger] p[j] <= 0xffff && k[j] == Some(
            p[j] as u16,
        ) by {}
        assert(p[i] <= 0xffff && k[i] == Some(p[i] as u16));
        if i + 1 < p.len() {
            assert(p[i + 1] <= 0xffff && k[i + 1] == Some(p[i + 1] as u16));
        }
        if i + 2 < p.len() {
            assert(p[i + 2] <= 0xffff && k[i + 2] == Some(p[i + 2] as u16));
        }
        if i + 4 < p.len() {
            assert(p[i + 3] <= 0xffff && k[i + 3] == Some(p[i + 3] as u16));
            assert(p[i + 4] <= 0xffff && k[i + 4] == Some(p[i + 4] as u16));
        }
        assert(listed_width(k, i) == sgr_width(p, i));
        assert(listed_color(k, i) == extended_color(p, i));
        assert(styled_at(s, k, i) == sgr_at(s, p, i));
        lemma_same_style(sgr_at(s, p, i), p, i + sgr_width(p, i));
    }
}

proof fn lemma_codes_emulated(m: TermModel, l: Seq<Seq<u32>>)
    requires
        m.parse is Ground,
        all_in_range(l),
    ensures
        ({
            let n = after(m, ascii(sgr_texts(l)));
            n == TermModel {
                style: after_codes(m.style, l),
                params: n.params,
                private: n.private,
                ..m
            }
        }),
    decreases l.len(),
{
    if l.len() == 0 {
        reveal(after);
        assert(ascii(sgr_texts(l)) =~= Seq::empty());
    } else {
        let front = l.drop_last();
        let p = l.last();
        assert(all_in_range(front)) by {
            assert forall|i: int| 0 <= i < front.len() implies in_range(#[trigger] front[i]) by {
                assert(in_range(l[i]));
            }
        }
        lemma_codes_emulated(m, front);
        let a = ascii(sgr_texts(front));
        let b = seq![0x1bu8, 0x5bu8] + ascii(params_text(p)) + seq![0x6du8];
        assert(in_range(l[l.len() - 1]));
        assert(ascii(sgr_text(p)) =~= b);
        assert(ascii(sgr_texts(l)) =~= a + b);
        lemma_after_join(m, a, b);
        let before = after(m, a);
        lemma_sequence(before, p, 0x6d);
        let idle = TermModel {
            parse: ParseState::Csi,
            params: Seq::empty(),
            private: None,
            ..before
        };
        lemma_style_sequence(idle, p);
        lemma_same_style(before.style, p, 0);
    }
}

/// Fed to the emulator between two sequences, what `sgr` writes makes `next` the
/// style of the characters that follow, where `prev` was the style before or
/// nothing is known of it. No cell changes and the cursor stays. From the plain
/// style to the plain style nothing is written.
pub proof fn lemma_sgr_emulated(m: TermModel, prev: Option<Style>, next: Style)
    requires
        m.parse is Ground,
        match prev {
            Some(p) => p == m.style && p.attrs.0 < 256,
            None => true,
        },
        next.attrs.0 < 256,
    ensures
        ({
            let n = m.run(encode_utf8(sgr_texts(sgr_codes(prev, next))));
            n == TermModel { style: next, params: n.params, private: n.private, ..m }
        }),
        prev == Some(plain_style()) && next == plain_style() ==> sgr_texts(
            sgr_codes(prev, next),
        ).len() == 0,
{
    let l = sgr_codes(prev, next);
    lemma_sgr_codes(m.style, prev, next);
    lemma_codes_emulated(m, l);
    lemma_texts_ascii(l);
    is_ascii_chars_encode_utf8(sgr_texts(l));
    assert(encode_utf8(sgr_texts(l)) =~= ascii(sgr_texts(l)));
    assert(after(m, ascii(sgr_texts(l))) == m.run(ascii(sgr_texts(l)))) by {
        reveal(after);
    }
}

} // verus!

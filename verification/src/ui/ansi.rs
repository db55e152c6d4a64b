//! The escape sequences that the screen is drawn with.
use vstd::prelude::*;
use vstd::string::*;
use crate::terminal_emulator::{plain_style, Attributes, Color, Style};
use crate::text::{dec, push_dec};

verus! {

pub const ESC: char = '\u{1b}';

/// Clears the screen and takes the cursor to its corner.
pub open spec fn clear_text() -> Seq<char> {
    "\u{1b}[2J\u{1b}[H"@
}

/// Takes the cursor to column `x` and row `y`, both counted from 0.
pub open spec fn move_text(x: int, y: int) -> Seq<char> {
    "\u{1b}["@ + dec((y + 1) as nat) + ";"@ + dec((x + 1) as nat) + "H"@
}

pub fn clear(out: &mut String)
    ensures
        final(out)@ == old(out)@ + clear_text(),
{
    out.append("\u{1b}[2J\u{1b}[H");
}

/// Moves the cursor to a cell, counted from 0.
pub fn move_to(out: &mut String, x: u16, y: u16)
    requires
        x < 0xffff,
        y < 0xffff,
    ensures
        final(out)@ == old(out)@ + move_text(x as int, y as int),
{
    out.append("\u{1b}[");
    push_dec(out, (y + 1) as u128);
    out.append(";");
    push_dec(out, (x + 1) as u128);
    out.append("H");
    assert(out@ =~= old(out)@ + move_text(x as int, y as int));
}

pub fn hide_cursor(out: &mut String)
    ensures
        final(out)@ == old(out)@ + "\u{1b}[?25l"@,
{
    out.append("\u{1b}[?25l");
}

pub fn show_cursor(out: &mut String)
    ensures
        final(out)@ == old(out)@ + "\u{1b}[?25h"@,
{
    out.append("\u{1b}[?25h");
}

pub fn enter_alt_screen(out: &mut String)
    ensures
        final(out)@ == old(out)@ + "\u{1b}[?1049h"@,
{
    out.append("\u{1b}[?1049h");
}

pub fn leave_alt_screen(out: &mut String)
    ensures
        final(out)@ == old(out)@ + "\u{1b}[?1049l"@,
{
    out.append("\u{1b}[?1049l");
}

/// Appends text in the colors that two sequences select, and goes back to the plain
/// style.
pub fn print_styled(out: &mut String, text: &str, fg: &str, bg: &str)
    ensures
        final(out)@ == old(out)@ + fg@ + bg@ + text@ + "\u{1b}[0m"@,
{
    out.append(fg);
    out.append(bg);
    out.append(text);
    out.append("\u{1b}[0m");
}

// ── SGR ──────────────────────────────────────────────────────────────────────

/// Numbers in decimal with `;` between them.
pub open spec fn params_text(p: Seq<u32>) -> Seq<char>
    decreases p.len(),
{
    if p.len() == 0 {
        Seq::empty()
    } else if p.len() == 1 {
        dec(p[0] as nat)
    } else {
        params_text(p.drop_last()).push(';') + dec(p.last() as nat)
    }
}

/// The SGR sequence with the parameters `p`.
pub open spec fn sgr_text(p: Seq<u32>) -> Seq<char> {
    seq![ESC, '['] + params_text(p) + seq!['m']
}

/// One SGR sequence after another.
pub open spec fn sgr_texts(l: Seq<Seq<u32>>) -> Seq<char>
    decreases l.len(),
{
    if l.len() == 0 {
        Seq::empty()
    } else {
        sgr_texts(l.drop_last()) + sgr_text(l.last())
    }
}

/// The parameters that select the foreground `c`.
pub open spec fn fg_codes(c: Color) -> Seq<u32> {
    match c {
        Color::Default => seq![39u32],
        Color::Indexed(n) => if n < 8 {
            seq![(30 + n) as u32]
        } else if n < 16 {
            seq![(82 + n) as u32]
        } else {
            seq![38u32, 5u32, n as u32]
        },
        Color::Rgb(r, g, b) => seq![38u32, 2u32, r as u32, g as u32, b as u32],
    }
}

/// The parameters that select the background `c`.
pub open spec fn bg_codes(c: Color) -> Seq<u32> {
    match c {
        Color::Default => seq![49u32],
        Color::Indexed(n) => if n < 8 {
            seq![(40 + n) as u32]
        } else if n < 16 {
            seq![(92 + n) as u32]
        } else {
            seq![48u32, 5u32, n as u32]
        },
        Color::Rgb(r, g, b) => seq![48u32, 2u32, r as u32, g as u32, b as u32],
    }
}

/// `l` and the code that switches `flag`, where the two styles differ in it.
pub open spec fn with_flag(
    l: Seq<Seq<u32>>,
    prev: Style,
    next: Style,
    flag: u16,
    on: u32,
    off: u32,
) -> Seq<Seq<u32>> {
    if prev.attrs.holds(flag) == next.attrs.holds(flag) {
        l
    } else if next.attrs.holds(flag) {
        l.push(seq![on])
    } else {
        l.push(seq![off])
    }
}

/// `l` and a code, where it is called for.
pub open spec fn with_code(l: Seq<Seq<u32>>, wanted: bool, code: u32) -> Seq<Seq<u32>> {
    if wanted {
        l.push(seq![code])
    } else {
        l
    }
}

/// Whether bold or dim has to end. One code ends both.
pub open spec fn weight_ends(prev: Style, next: Style) -> bool {
    (prev.attrs.holds(Attributes::BOLD) && !next.attrs.holds(Attributes::BOLD)) || (
    prev.attrs.holds(Attributes::DIM) && !next.attrs.holds(Attributes::DIM))
}

/// The codes for bold and dim: where one of them has to end both are ended, and what
/// the next style holds of them is switched on.
pub open spec fn weight_changes(l: Seq<Seq<u32>>, prev: Style, next: Style) -> Seq<Seq<u32>> {
    let ends = weight_ends(prev, next);
    let l = with_code(l, ends, 22);
    let l = with_code(
        l,
        next.attrs.holds(Attributes::BOLD) && (ends || !prev.attrs.holds(Attributes::BOLD)),
        1,
    );
    with_code(
        l,
        next.attrs.holds(Attributes::DIM) && (ends || !prev.attrs.holds(Attributes::DIM)),
        2,
    )
}

/// The codes for the attributes in which two styles differ.
pub open spec fn attr_changes(l: Seq<Seq<u32>>, prev: Style, next: Style) -> Seq<Seq<u32>> {
    let l = weight_changes(l, prev, next);
    let l = with_flag(l, prev, next, Attributes::ITALIC, 3, 23);
    let l = with_flag(l, prev, next, Attributes::UNDERLINE, 4, 24);
    let l = with_flag(l, prev, next, Attributes::BLINK, 5, 25);
    let l = with_flag(l, prev, next, Attributes::HIDDEN, 8, 28);
    let l = with_flag(l, prev, next, Attributes::STRIKE, 9, 29);
    with_flag(l, prev, next, Attributes::REVERSE, 7, 27)
}

/// The codes for everything in which two styles differ.
pub open spec fn changes(l: Seq<Seq<u32>>, prev: Style, next: Style) -> Seq<Seq<u32>> {
    let l = attr_changes(l, prev, next);
    let l = if prev.fg == next.fg {
        l
    } else {
        l.push(fg_codes(next.fg))
    };
    if prev.bg == next.bg {
        l
    } else {
        l.push(bg_codes(next.bg))
    }
}

/// The SGR sequences that lead from `prev` (nothing known where it is `None`) to
/// `next`.
pub open spec fn sgr_codes(prev: Option<Style>, next: Style) -> Seq<Seq<u32>> {
    let reset = seq![seq![0u32]];
    match prev {
        None => changes(reset, plain_style(), next),
        Some(p) => if next == plain_style() {
            if p == plain_style() {
                Seq::empty()
            } else {
                reset
            }
        } else if p == plain_style() {
            changes(reset, p, next)
        } else {
            changes(Seq::empty(), p, next)
        },
    }
}

/// Appends the SGR sequence with the parameters `p`.
pub fn push_sgr(out: &mut String, p: &[u32])
    ensures
        final(out)@ == old(out)@ + sgr_text(p@),
{
    out.push(ESC);
    out.push('[');
    let ghost head = out@;
    let mut i: usize = 0;
    while i < p.len()
        invariant
            i <= p@.len(),
            out@ == head + params_text(p@.take(i as int)),
        decreases p@.len() - i,
    {
        if i > 0 {
            out.push(';');
        }
        push_dec(out, p[i] as u128);
        proof {
            let next = p@.take(i + 1);
            assert(next.drop_last() =~= p@.take(i as int));
            assert(next.last() == p@[i as int]);
            if i == 0 {
                assert(p@.take(0) =~= Seq::empty());
                assert(out@ =~= head + params_text(next));
            } else {
                assert(out@ =~= head + params_text(next));
            }
        }
        i = i + 1;
    }
    assert(p@.take(i as int) =~= p@);
    out.push('m');
    assert(out@ =~= old(out)@ + sgr_text(p@));
}

proof fn lemma_texts_push(l: Seq<Seq<u32>>, p: Seq<u32>)
    ensures
        sgr_texts(l.push(p)) == sgr_texts(l) + sgr_text(p),
{
    assert(l.push(p).drop_last() =~= l);
}

fn push_code(
    out: &mut String,
    wanted: bool,
    code: u32,
    Ghost(head): Ghost<Seq<char>>,
    Ghost(l): Ghost<Seq<Seq<u32>>>,
)
    requires
        old(out)@ == head + sgr_texts(l),
    ensures
        final(out)@ == head + sgr_texts(with_code(l, wanted, code)),
{
    if wanted {
        let codes: [u32; 1] = [code];
        push_sgr(out, &codes);
        proof {
            assert(codes@ =~= seq![code]);
            lemma_texts_push(l, seq![code]);
            assert(out@ =~= head + sgr_texts(l.push(seq![code])));
        }
    }
}

fn push_weight(
    out: &mut String,
    prev: &Style,
    next: &Style,
    Ghost(head): Ghost<Seq<char>>,
    Ghost(l): Ghost<Seq<Seq<u32>>>,
)
    requires
        old(out)@ == head + sgr_texts(l),
    ensures
        final(out)@ == head + sgr_texts(weight_changes(l, *prev, *next)),
{
    let (b, d) = (prev.attrs.has(Attributes::BOLD), prev.attrs.has(Attributes::DIM));
    let (bold, dim) = (next.attrs.has(Attributes::BOLD), next.attrs.has(Attributes::DIM));
    let ends = (b && !bold) || (d && !dim);
    let ghost l1 = with_code(l, ends, 22);
    let ghost l2 = with_code(l1, bold && (ends || !b), 1);
    push_code(out, ends, 22, Ghost(head), Ghost(l));
    push_code(out, bold && (ends || !b), 1, Ghost(head), Ghost(l1));
    push_code(out, dim && (ends || !d), 2, Ghost(head), Ghost(l2));
}

fn push_flag(
    out: &mut String,
    prev: &Style,
    next: &Style,
    flag: u16,
    on: u32,
    off: u32,
    Ghost(head): Ghost<Seq<char>>,
    Ghost(l): Ghost<Seq<Seq<u32>>>,
)
    requires
        old(out)@ == head + sgr_texts(l),
    ensures
        final(out)@ == head + sgr_texts(with_flag(l, *prev, *next, flag, on, off)),
{
    let to = next.attrs.has(flag);
    let code: u32 = if to {
        on
    } else {
        off
    };
    push_code(out, prev.attrs.has(flag) != to, code, Ghost(head), Ghost(l));
}

fn push_color(
    out: &mut String,
    c: Color,
    background: bool,
    Ghost(head): Ghost<Seq<char>>,
    Ghost(l): Ghost<Seq<Seq<u32>>>,
)
    requires
        old(out)@ == head + sgr_texts(l),
    ensures
        final(out)@ == head + sgr_texts(
            l.push(
                if background {
                    bg_codes(c)
                } else {
                    fg_codes(c)
                },
            ),
        ),
{
    let shift: u32 = if background {
        10
    } else {
        0
    };
    let mut v: Vec<u32> = Vec::new();
    match c {
        Color::Default => v.push(39 + shift),
        Color::Indexed(n) => {
            if n < 8 {
                v.push(30 + shift + n as u32);
            } else if n < 16 {
                v.push(82 + shift + n as u32);
            } else {
                v.push(38 + shift);
                v.push(5);
                v.push(n as u32);
            }
        },
        Color::Rgb(r, g, b) => {
            v.push(38 + shift);
            v.push(2);
            v.push(r as u32);
            v.push(g as u32);
            v.push(b as u32);
        },
    }
    let ghost codes = if background {
        bg_codes(c)
    } else {
        fg_codes(c)
    };
    assert(v@ =~= codes);
    push_sgr(out, &v);
    proof {
        lemma_texts_push(l, codes);
        assert(out@ =~= head + sgr_texts(l.push(codes)));
    }
}

fn append_style(
    out: &mut String,
    prev: &Style,
    next: &Style,
    Ghost(head): Ghost<Seq<char>>,
    Ghost(l): Ghost<Seq<Seq<u32>>>,
)
    requires
        old(out)@ == head + sgr_texts(l),
    ensures
        final(out)@ == head + sgr_texts(changes(l, *prev, *next)),
{
    let ghost (p, n) = (*prev, *next);
    let ghost l2 = weight_changes(l, p, n);
    let ghost l3 = with_flag(l2, p, n, Attributes::ITALIC, 3, 23);
    let ghost l4 = with_flag(l3, p, n, Attributes::UNDERLINE, 4, 24);
    let ghost l5 = with_flag(l4, p, n, Attributes::BLINK, 5, 25);
    let ghost l6 = with_flag(l5, p, n, Attributes::HIDDEN, 8, 28);
    let ghost l7 = with_flag(l6, p, n, Attributes::STRIKE, 9, 29);
    let ghost l8 = attr_changes(l, p, n);
    push_weight(out, prev, next, Ghost(head), Ghost(l));
    push_flag(out, prev, next, Attributes::ITALIC, 3, 23, Ghost(head), Ghost(l2));
    push_flag(out, prev, next, Attributes::UNDERLINE, 4, 24, Ghost(head), Ghost(l3));
    push_flag(out, prev, next, Attributes::BLINK, 5, 25, Ghost(head), Ghost(l4));
    push_flag(out, prev, next, Attributes::HIDDEN, 8, 28, Ghost(head), Ghost(l5));
    push_flag(out, prev, next, Attributes::STRIKE, 9, 29, Ghost(head), Ghost(l6));
    push_flag(out, prev, next, Attributes::REVERSE, 7, 27, Ghost(head), Ghost(l7));
    let ghost mut l9 = l8;
    if prev.fg != next.fg {
        push_color(out, next.fg, false, Ghost(head), Ghost(l8));
        proof {
            l9 = l8.push(fg_codes(next.fg));
        }
    }
    if prev.bg != next.bg {
        push_color(out, next.bg, true, Ghost(head), Ghost(l9));
    }
}

fn is_plain(s: &Style) -> (r: bool)
    ensures
        r == (*s == plain_style()),
{
    s.attrs.is_empty() && s.fg == Color::Default && s.bg == Color::Default
}

/// Appends the SGR that leads from `prev` (`None` where nothing is known) to
/// `next`: only what changes is written.
pub fn sgr(out: &mut String, prev: Option<&Style>, next: &Style)
    ensures
        final(out)@ == old(out)@ + sgr_texts(
            sgr_codes(
                match prev {
                    Some(p) => Some(*p),
                    None => None,
                },
                *next,
            ),
        ),
{
    let ghost head = out@;
    let ghost reset = seq![seq![0u32]];
    let zero: [u32; 1] = [0];
    proof {
        assert(zero@ =~= seq![0u32]);
        assert(reset.drop_last() =~= Seq::empty());
        assert(sgr_texts(Seq::empty()) =~= Seq::empty());
        assert(sgr_texts(reset) =~= sgr_text(seq![0u32]));
        assert(head =~= head + sgr_texts(Seq::empty()));
    }
    match prev {
        None => {
            push_sgr(out, &zero);
            append_style(out, &Style::default(), next, Ghost(head), Ghost(reset));
        },
        Some(p) => {
            if is_plain(next) {
                if !is_plain(p) {
                    push_sgr(out, &zero);
                }
            } else if is_plain(p) {
                push_sgr(out, &zero);
                append_style(out, p, next, Ghost(head), Ghost(reset));
            } else {
                append_style(out, p, next, Ghost(head), Ghost(Seq::empty()));
            }
        },
    }
}

} // verus!

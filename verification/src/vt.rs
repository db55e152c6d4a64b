//! What the bytes that programs send do to a terminal: where they take the cursor,
//! which cells they change, and which they leave as they were.
use vstd::prelude::*;
use vstd::utf8::{
    encode_scalar, encode_utf8, is_ascii_chars, is_ascii_chars_encode_utf8, last_continuation_byte,
    leading_byte_width_1, leading_byte_width_2, leading_byte_width_3, leading_byte_width_4,
    second_last_continuation_byte, third_last_continuation_byte,
};
use crate::num::lemma_row_bound;
use crate::terminal_emulator::{
    blank, fill_range, lemma_chunks, lemma_set_has, plain_style, sgr_from, sgr_simple, shift_left,
    shift_right, utf8_char, utf8_need, Attributes, Cell, Color, Cursor, ParseState, Style,
    TermModel,
};
use crate::text::dec;
use crate::ui::ansi::params_text;
use crate::ui::damage::{
    lemma_width_four, lemma_width_one, lemma_width_three, lemma_width_two, showable,
};
use crate::ui::emulated::{idle, lemma_bare_sequence_run, lemma_byte_run, lemma_sequence_run};
use crate::ui::transitions::{ascii, in_range, lemma_params};

verus! {

// ── Sequences ────────────────────────────────────────────────────────────────

/// The bytes of ESC `[`, the number `n` and a last character.
pub open spec fn control(n: nat, last: char) -> Seq<u8> {
    encode_utf8(seq!['\u{1b}', '['] + dec(n) + seq![last])
}

/// The bytes of ESC `[`, the numbers `a` and `b` and a last character.
pub open spec fn control_two(a: nat, b: nat, last: char) -> Seq<u8> {
    encode_utf8(seq!['\u{1b}', '['] + dec(a) + seq![';'] + dec(b) + seq![last])
}

/// The bytes of ESC `[` and a last character, without a number.
pub open spec fn bare(last: char) -> Seq<u8> {
    encode_utf8(seq!['\u{1b}', '[', last])
}

/// The terminal after a chunk of output.
#[verifier::opaque]
pub open spec fn fed(m: TermModel, bytes: Seq<u8>) -> TermModel {
    m.run(bytes)
}

/// A terminal between two sequences, in one of its states, with its cursor on the
/// grid.
pub open spec fn at_rest(m: TermModel) -> bool {
    m.wf() && m.on_grid() && m.parse is Ground
}

/// The cell that is shown in row `r` and column `c` of the screen.
pub open spec fn shown(m: TermModel, r: int, c: int) -> Cell {
    m.line(m.scrollback.len() + r)[c]
}

/// Whether `n` is `m` but for the place of the cursor, which is `(x, y)`.
pub open spec fn moved_to(m: TermModel, n: TermModel, x: int, y: int) -> bool {
    n == TermModel {
        cursor: Cursor { x: x as u16, y: y as u16, visible: m.cursor.visible },
        pending_wrap: n.pending_wrap,
        params: n.params,
        private: n.private,
        ..m
    }
}

/// Whether `n` has the cursor, the scrollback, the size and the style of `m`.
pub open spec fn stays(m: TermModel, n: TermModel) -> bool {
    &&& n.cursor == m.cursor
    &&& n.saved == m.saved
    &&& n.scrollback == m.scrollback
    &&& n.cols == m.cols
    &&& n.rows == m.rows
    &&& n.style == m.style
    &&& n.alt_active == m.alt_active
    &&& n.parse is Ground
}

/// The state after a sequence with the parameters `p` that ends in `last`.
#[verifier::opaque]
spec fn effect(m: TermModel, p: Seq<u32>, last: char) -> TermModel {
    TermModel {
        parse: ParseState::Ground,
        ..TermModel { parse: ParseState::Csi, ..idle(m) }.dispatched(p, None, last as u8)
    }
}

proof fn lemma_ascii_bytes(t: Seq<char>)
    requires
        forall|i: int| 0 <= i < t.len() ==> 0 <= #[trigger] t[i] as int && t[i] as int <= 127,
    ensures
        encode_utf8(t) == ascii(t),
{
    assert(is_ascii_chars(t));
    is_ascii_chars_encode_utf8(t);
    assert(encode_utf8(t) =~= ascii(t));
}

proof fn lemma_control(m: TermModel, n: nat, last: char)
    requires
        m.parse is Ground,
        n <= 0xffff,
        '@' <= last <= '~',
    ensures
        fed(m, control(n, last)) == effect(m, seq![n as u32], last),
{
    let p = seq![n as u32];
    let t = seq!['\u{1b}', '['] + dec(n) + seq![last];
    assert(in_range(p));
    assert(params_text(p) == dec(n));
    lemma_params(p);
    assert forall|i: int| 0 <= i < t.len() implies 0 <= #[trigger] t[i] as int && t[i] as int
        <= 127 by {
        if 2 <= i < t.len() - 1 {
            assert(t[i] == params_text(p)[i - 2]);
        }
    }
    lemma_ascii_bytes(t);
    assert(encode_utf8(t) =~= seq![0x1bu8, 0x5bu8] + ascii(params_text(p)) + seq![last as u8]);
    lemma_sequence_run(m, p, last as u8);
    reveal(effect);
    reveal(fed);
}

proof fn lemma_control_two(m: TermModel, a: nat, b: nat, last: char)
    requires
        m.parse is Ground,
        a <= 0xffff,
        b <= 0xffff,
        '@' <= last <= '~',
    ensures
        fed(m, control_two(a, b, last)) == effect(m, seq![a as u32, b as u32], last),
{
    let p = seq![a as u32, b as u32];
    let t = seq!['\u{1b}', '['] + dec(a) + seq![';'] + dec(b) + seq![last];
    assert(in_range(p));
    let one = seq![a as u32];
    assert(p.drop_last() =~= one);
    assert(params_text(one) == dec(a));
    assert(params_text(p) == params_text(one).push(';') + dec(b));
    lemma_params(p);
    assert(t =~= seq!['\u{1b}', '['] + params_text(p) + seq![last]);
    assert forall|i: int| 0 <= i < t.len() implies 0 <= #[trigger] t[i] as int && t[i] as int
        <= 127 by {
        if 2 <= i < t.len() - 1 {
            assert(t[i] == params_text(p)[i - 2]);
        }
    }
    lemma_ascii_bytes(t);
    assert(encode_utf8(t) =~= seq![0x1bu8, 0x5bu8] + ascii(params_text(p)) + seq![last as u8]);
    lemma_sequence_run(m, p, last as u8);
    reveal(effect);
    reveal(fed);
}

proof fn lemma_bare(m: TermModel, last: char)
    requires
        m.parse is Ground,
        '@' <= last <= '~',
    ensures
        fed(m, bare(last)) == effect(m, Seq::empty(), last),
{
    let t = seq!['\u{1b}', '[', last];
    lemma_ascii_bytes(t);
    assert(encode_utf8(t) =~= seq![0x1bu8, 0x5bu8, last as u8]);
    lemma_bare_sequence_run(m, last as u8);
    reveal(effect);
    reveal(fed);
}

/// `m` with its cursor at `(x, y)`.
#[verifier::opaque]
spec fn placed(m: TermModel, x: int, y: int, wrap: bool) -> TermModel {
    TermModel {
        cursor: Cursor { x: x as u16, y: y as u16, visible: m.cursor.visible },
        pending_wrap: wrap,
        ..idle(m)
    }
}

proof fn lemma_placed(m: TermModel, x: int, y: int, wrap: bool)
    requires
        m.parse is Ground,
    ensures
        moved_to(m, placed(m, x, y, wrap), x, y),
        placed(m, x, y, wrap).parse is Ground,
        placed(m, x, y, wrap).cols == m.cols,
        placed(m, x, y, wrap).rows == m.rows,
        placed(m, x, y, wrap).saved == m.saved,
        placed(m, x, y, wrap).cursor == (Cursor {
            x: x as u16,
            y: y as u16,
            visible: m.cursor.visible,
        }),
{
    reveal(placed);
}

/// What the sequences for the cursor do.
proof fn lemma_arrow_effects(m: TermModel, n: nat)
    requires
        at_rest(m),
        1 <= n <= 0xffff,
    ensures
        ({
            let p = seq![n as u32];
            let up: int = if n <= m.cursor.y {
                m.cursor.y - n
            } else {
                0
            };
            let down = if m.cursor.y + n < m.rows {
                m.cursor.y + n
            } else {
                m.rows - 1
            };
            let left: int = if n <= m.cursor.x {
                m.cursor.x - n
            } else {
                0
            };
            let right = if m.cursor.x + n < m.cols {
                m.cursor.x + n
            } else {
                m.cols - 1
            };
            &&& effect(m, p, 'A') == placed(m, m.cursor.x as int, up, false)
            &&& effect(m, p, 'B') == placed(m, m.cursor.x as int, down, false)
            &&& effect(m, p, 'C') == placed(m, right, m.cursor.y as int, false)
            &&& effect(m, p, 'D') == placed(m, left, m.cursor.y as int, false)
            &&& effect(m, p, 'E') == placed(m, 0, down, false)
            &&& effect(m, p, 'F') == placed(m, 0, up, false)
        }),
{
    reveal(effect);
    reveal(placed);
}

proof fn lemma_place_effects(m: TermModel, n: nat)
    requires
        at_rest(m),
        1 <= n <= 0xffff,
    ensures
        ({
            let p = seq![n as u32];
            let column: int = if n < m.cols {
                n - 1
            } else {
                m.cols - 1
            };
            let row: int = if n < m.rows {
                n - 1
            } else {
                m.rows - 1
            };
            &&& effect(m, p, 'G') == placed(m, column, m.cursor.y as int, m.pending_wrap)
            &&& effect(m, p, 'd') == placed(m, m.cursor.x as int, row, m.pending_wrap)
        }),
{
    reveal(effect);
    reveal(placed);
}

proof fn lemma_home_effects(m: TermModel, r: nat, c: nat)
    requires
        at_rest(m),
        1 <= r <= 0xffff,
        1 <= c <= 0xffff,
    ensures
        ({
            let p = seq![r as u32, c as u32];
            let column: int = if c < m.cols {
                c - 1
            } else {
                m.cols - 1
            };
            let row: int = if r < m.rows {
                r - 1
            } else {
                m.rows - 1
            };
            &&& effect(m, p, 'H') == placed(m, column, row, false)
            &&& effect(m, p, 'f') == placed(m, column, row, false)
        }),
        effect(m, Seq::empty(), 'H') == placed(m, 0, 0, false),
{
    reveal(effect);
    reveal(placed);
}

proof fn lemma_default_effects(m: TermModel)
    ensures
        effect(m, Seq::empty(), 'A') == effect(m, seq![1u32], 'A'),
        effect(m, Seq::empty(), 'B') == effect(m, seq![1u32], 'B'),
        effect(m, Seq::empty(), 'C') == effect(m, seq![1u32], 'C'),
        effect(m, Seq::empty(), 'D') == effect(m, seq![1u32], 'D'),
        effect(m, Seq::empty(), 's') == (TermModel {
            saved: m.cursor,
            parse: ParseState::Ground,
            ..idle(m)
        }),
        effect(m, Seq::empty(), 'u') == (TermModel {
            cursor: m.saved,
            parse: ParseState::Ground,
            ..idle(m)
        }),
{
    reveal(effect);
}

// ── The cursor ───────────────────────────────────────────────────────────────

/// ESC `[` `n` `A` takes the cursor up `n` rows, to the first one at most; it stays
/// in its column, and no cell changes.
pub proof fn lemma_cursor_up(m: TermModel, n: nat)
    requires
        at_rest(m),
        1 <= n <= 0xffff,
    ensures
        moved_to(
            m,
            fed(m, control(n, 'A')),
            m.cursor.x as int,
            if n <= m.cursor.y {
                m.cursor.y - n
            } else {
                0
            },
        ),
{
    let up: int = if n <= m.cursor.y {
        m.cursor.y - n
    } else {
        0
    };
    lemma_control(m, n, 'A');
    lemma_arrow_effects(m, n);
    lemma_placed(m, m.cursor.x as int, up, false);
}

/// ESC `[` `n` `B` takes the cursor down `n` rows, to the last one at most; it stays
/// in its column, and no cell changes.
pub proof fn lemma_cursor_down(m: TermModel, n: nat)
    requires
        at_rest(m),
        1 <= n <= 0xffff,
    ensures
        moved_to(
            m,
            fed(m, control(n, 'B')),
            m.cursor.x as int,
            if m.cursor.y + n < m.rows {
                m.cursor.y + n
            } else {
                m.rows - 1
            },
        ),
{
    let down: int = if m.cursor.y + n < m.rows {
        m.cursor.y + n
    } else {
        m.rows - 1
    };
    lemma_control(m, n, 'B');
    lemma_arrow_effects(m, n);
    lemma_placed(m, m.cursor.x as int, down, false);
}

/// ESC `[` `n` `C` takes the cursor `n` columns to the right, to the last one at
/// most; it stays in its row, and no cell changes.
pub proof fn lemma_cursor_right(m: TermModel, n: nat)
    requires
        at_rest(m),
        1 <= n <= 0xffff,
    ensures
        moved_to(
            m,
            fed(m, control(n, 'C')),
            if m.cursor.x + n < m.cols {
                m.cursor.x + n
            } else {
                m.cols - 1
            },
            m.cursor.y as int,
        ),
{
    let right: int = if m.cursor.x + n < m.cols {
        m.cursor.x + n
    } else {
        m.cols - 1
    };
    lemma_control(m, n, 'C');
    lemma_arrow_effects(m, n);
    lemma_placed(m, right, m.cursor.y as int, false);
}

/// ESC `[` `n` `D` takes the cursor `n` columns to the left, to the first one at
/// most; it stays in its row, and no cell changes.
pub proof fn lemma_cursor_left(m: TermModel, n: nat)
    requires
        at_rest(m),
        1 <= n <= 0xffff,
    ensures
        moved_to(
            m,
            fed(m, control(n, 'D')),
            if n <= m.cursor.x {
                m.cursor.x - n
            } else {
                0
            },
            m.cursor.y as int,
        ),
{
    let left: int = if n <= m.cursor.x {
        m.cursor.x - n
    } else {
        0
    };
    lemma_control(m, n, 'D');
    lemma_arrow_effects(m, n);
    lemma_placed(m, left, m.cursor.y as int, false);
}

proof fn lemma_there_and_back(m: TermModel, n: nat, there: char, back: char)
    requires
        at_rest(m),
        1 <= n <= 0xffff,
        (there, back) == ('A', 'B') || (there, back) == ('B', 'A') || (there, back) == ('C', 'D')
            || (there, back) == ('D', 'C'),
    ensures
        (there == 'B' ==> m.cursor.y + n < m.rows) && (there == 'A' ==> n <= m.cursor.y) && (there
            == 'C' ==> m.cursor.x + n < m.cols) && (there == 'D' ==> n <= m.cursor.x) ==> fed(
            fed(m, control(n, there)),
            control(n, back),
        ).cursor == m.cursor,
{
    lemma_control(m, n, there);
    lemma_arrow_effects(m, n);
    let up: int = if n <= m.cursor.y {
        m.cursor.y - n
    } else {
        0
    };
    let down: int = if m.cursor.y + n < m.rows {
        m.cursor.y + n
    } else {
        m.rows - 1
    };
    let left: int = if n <= m.cursor.x {
        m.cursor.x - n
    } else {
        0
    };
    let right: int = if m.cursor.x + n < m.cols {
        m.cursor.x + n
    } else {
        m.cols - 1
    };
    let x = m.cursor.x as int;
    let y = m.cursor.y as int;
    lemma_placed(m, x, up, false);
    lemma_placed(m, x, down, false);
    lemma_placed(m, left, y, false);
    lemma_placed(m, right, y, false);
    let t = fed(m, control(n, there));
    assert(at_rest(t));
    lemma_control(t, n, back);
    lemma_arrow_effects(t, n);
    lemma_placed(t, x, y, false);
}

/// Down and up again, and to the right and back, is where the cursor was, where the
/// grid has room.
pub proof fn lemma_cursor_there_and_back(m: TermModel, n: nat)
    requires
        at_rest(m),
        1 <= n <= 0xffff,
    ensures
        m.cursor.y + n < m.rows ==> fed(fed(m, control(n, 'B')), control(n, 'A')).cursor == m.cursor,
        n <= m.cursor.y ==> fed(fed(m, control(n, 'A')), control(n, 'B')).cursor == m.cursor,
        m.cursor.x + n < m.cols ==> fed(fed(m, control(n, 'C')), control(n, 'D')).cursor == m.cursor,
        n <= m.cursor.x ==> fed(fed(m, control(n, 'D')), control(n, 'C')).cursor == m.cursor,
{
    lemma_there_and_back(m, n, 'B', 'A');
    lemma_there_and_back(m, n, 'A', 'B');
    lemma_there_and_back(m, n, 'C', 'D');
    lemma_there_and_back(m, n, 'D', 'C');
}

/// ESC `[` `n` `E` and ESC `[` `n` `F` take the cursor to the first column, `n` rows
/// down or up.
pub proof fn lemma_cursor_lines(m: TermModel, n: nat)
    requires
        at_rest(m),
        1 <= n <= 0xffff,
    ensures
        moved_to(
            m,
            fed(m, control(n, 'E')),
            0,
            if m.cursor.y + n < m.rows {
                m.cursor.y + n
            } else {
                m.rows - 1
            },
        ),
        moved_to(
            m,
            fed(m, control(n, 'F')),
            0,
            if n <= m.cursor.y {
                m.cursor.y - n
            } else {
                0
            },
        ),
{
    let up: int = if n <= m.cursor.y {
        m.cursor.y - n
    } else {
        0
    };
    let down: int = if m.cursor.y + n < m.rows {
        m.cursor.y + n
    } else {
        m.rows - 1
    };
    lemma_control(m, n, 'E');
    lemma_arrow_effects(m, n);
    lemma_placed(m, 0, down, false);
    lemma_control(m, n, 'F');
    lemma_placed(m, 0, up, false);
}

/// ESC `[` `n` `G` takes the cursor to column `n` of its row, and ESC `[` `n` `d` to
/// row `n` of its column, both counted from 1 and not past the grid.
pub proof fn lemma_cursor_column_row(m: TermModel, n: nat)
    requires
        at_rest(m),
        1 <= n <= 0xffff,
    ensures
        moved_to(
            m,
            fed(m, control(n, 'G')),
            if n < m.cols {
                n - 1
            } else {
                m.cols - 1
            },
            m.cursor.y as int,
        ),
        moved_to(
            m,
            fed(m, control(n, 'd')),
            m.cursor.x as int,
            if n < m.rows {
                n - 1
            } else {
                m.rows - 1
            },
        ),
{
    let column: int = if n < m.cols {
        n - 1
    } else {
        m.cols - 1
    };
    let row: int = if n < m.rows {
        n - 1
    } else {
        m.rows - 1
    };
    lemma_control(m, n, 'G');
    lemma_control(m, n, 'd');
    lemma_place_effects(m, n);
    lemma_placed(m, column, m.cursor.y as int, m.pending_wrap);
    lemma_placed(m, m.cursor.x as int, row, m.pending_wrap);
}

/// ESC `[` `r` `;` `c` `H` takes the cursor to row `r` and column `c`, counted from
/// 1 and not past the grid; `f` in place of `H` does the same.
pub proof fn lemma_cursor_position(m: TermModel, r: nat, c: nat)
    requires
        at_rest(m),
        1 <= r <= 0xffff,
        1 <= c <= 0xffff,
    ensures
        moved_to(
            m,
            fed(m, control_two(r, c, 'H')),
            if c < m.cols {
                c - 1
            } else {
                m.cols - 1
            },
            if r < m.rows {
                r - 1
            } else {
                m.rows - 1
            },
        ),
        fed(m, control_two(r, c, 'f')) == fed(m, control_two(r, c, 'H')),
{
    let column: int = if c < m.cols {
        c - 1
    } else {
        m.cols - 1
    };
    let row: int = if r < m.rows {
        r - 1
    } else {
        m.rows - 1
    };
    lemma_control_two(m, r, c, 'H');
    lemma_control_two(m, r, c, 'f');
    lemma_home_effects(m, r, c);
    lemma_placed(m, column, row, false);
}

/// Without a number a sequence for the cursor means 1: home, or one step.
pub proof fn lemma_cursor_default(m: TermModel)
    requires
        at_rest(m),
    ensures
        moved_to(m, fed(m, bare('H')), 0, 0),
        fed(m, bare('A')) == fed(m, control(1, 'A')),
        fed(m, bare('B')) == fed(m, control(1, 'B')),
        fed(m, bare('C')) == fed(m, control(1, 'C')),
        fed(m, bare('D')) == fed(m, control(1, 'D')),
{
    lemma_home_effects(m, 1, 1);
    lemma_placed(m, 0, 0, false);
    lemma_default_effects(m);
    lemma_bare(m, 'H');
    lemma_bare(m, 'A');
    lemma_bare(m, 'B');
    lemma_bare(m, 'C');
    lemma_bare(m, 'D');
    lemma_control(m, 1, 'A');
    lemma_control(m, 1, 'B');
    lemma_control(m, 1, 'C');
    lemma_control(m, 1, 'D');
}

/// Wherever the cursor is taken in between, ESC `[` `u` takes it to where ESC `[` `s`
/// was sent.
pub proof fn lemma_cursor_saved(m: TermModel, r: nat, c: nat)
    requires
        at_rest(m),
        1 <= r <= 0xffff,
        1 <= c <= 0xffff,
    ensures
        fed(m, bare('s')).cursor == m.cursor,
        fed(fed(fed(m, bare('s')), control_two(r, c, 'H')), bare('u')).cursor == m.cursor,
{
    lemma_bare(m, 's');
    lemma_default_effects(m);
    let s = fed(m, bare('s'));
    lemma_cursor_position(s, r, c);
    let t = fed(s, control_two(r, c, 'H'));
    lemma_bare(t, 'u');
    lemma_default_effects(t);
}

// ── Cells ────────────────────────────────────────────────────────────────────

/// Where a cell is among those of the screen: the cells of earlier rows come first.
proof fn lemma_cell_order(r: int, c: int, y: int, cols: int, rows: int)
    requires
        0 <= r < rows,
        0 <= c < cols,
        0 <= y < rows,
    ensures
        0 <= r * cols + c < cols * rows,
        y * cols + cols == (y + 1) * cols,
        r < y ==> r * cols + c < y * cols,
        r > y ==> r * cols + c >= (y + 1) * cols,
{
    lemma_row_bound(r, rows, cols);
    lemma_row_bound(y, rows, cols);
    assert(rows * cols == cols * rows) by (nonlinear_arith);
    if r < y {
        assert((r + 1) * cols <= y * cols) by (nonlinear_arith)
            requires
                r + 1 <= y,
                0 <= cols,
        ;
    }
    if r > y {
        assert((y + 1) * cols <= r * cols) by (nonlinear_arith)
            requires
                y + 1 <= r,
                0 <= cols,
        ;
    }
}

/// The cell in row `r` and column `c` of a screen.
proof fn lemma_shown(m: TermModel, r: int, c: int)
    requires
        m.cells().len() == m.cols * m.rows,
        0 <= r < m.rows,
        0 <= c < m.cols,
    ensures
        shown(m, r, c) == m.cells()[r * m.cols + c],
{
    lemma_cell_order(r, c, r, m.cols as int, m.rows as int);
    lemma_row_bound(r, m.rows as int, m.cols as int);
    assert(m.rows * m.cols == m.cols * m.rows) by (nonlinear_arith);
}

/// The blank that erasing leaves.
pub open spec fn erased(m: TermModel) -> Cell {
    Cell { ch: ' ', style: m.style }
}

/// A range of cells that was filled.
proof fn lemma_filled(m: TermModel, n: TermModel, from: int, to: int, c: Cell)
    requires
        m.wf(),
        n.cols == m.cols,
        n.rows == m.rows,
        n.cells() == fill_range(m.cells(), from, to, c),
    ensures
        forall|r: int, q: int|
            0 <= r < m.rows && 0 <= q < m.cols ==> #[trigger] shown(n, r, q) == (if from <= r
                * m.cols + q < to {
                c
            } else {
                shown(m, r, q)
            }),
{
    assert forall|r: int, q: int| 0 <= r < m.rows && 0 <= q < m.cols implies #[trigger] shown(
        n,
        r,
        q,
    ) == (if from <= r * m.cols + q < to {
        c
    } else {
        shown(m, r, q)
    }) by {
        lemma_shown(m, r, q);
        lemma_shown(n, r, q);
        lemma_cell_order(r, q, r, m.cols as int, m.rows as int);
    }
}

/// What erasing a line does to the state.
proof fn lemma_line_effect(m: TermModel, mode: nat)
    requires
        at_rest(m),
        mode <= 2,
    ensures
        ({
            let n = effect(m, seq![mode as u32], 'K');
            let start = m.cursor.y * m.cols;
            &&& stays(m, n)
            &&& n.cells() == fill_range(
                m.cells(),
                if mode == 0 {
                    start + m.cursor.x
                } else {
                    start
                },
                if mode == 1 {
                    start + m.cursor.x + 1
                } else {
                    start + m.cols
                },
                erased(m),
            )
        }),
{
    reveal(effect);
}

/// ESC `[` `K` erases in the row of the cursor and nowhere else: with 0 from the cursor
/// on, with 1 up to it and with it, with 2 the whole row.
pub proof fn lemma_erase_line(m: TermModel, mode: nat)
    requires
        at_rest(m),
        mode <= 2,
    ensures
        stays(m, fed(m, control(mode, 'K'))),
        forall|r: int, c: int|
            0 <= r < m.rows && 0 <= c < m.cols ==> #[trigger] shown(
                fed(m, control(mode, 'K')),
                r,
                c,
            ) == (if r == m.cursor.y && (mode == 0 && c >= m.cursor.x || mode == 1 && c
                <= m.cursor.x || mode == 2) {
                erased(m)
            } else {
                shown(m, r, c)
            }),
{
    lemma_control(m, mode, 'K');
    lemma_line_effect(m, mode);
    let n = fed(m, control(mode, 'K'));
    let start = m.cursor.y * m.cols;
    let from = if mode == 0 {
        start + m.cursor.x
    } else {
        start
    };
    let to = if mode == 1 {
        start + m.cursor.x + 1
    } else {
        start + m.cols
    };
    lemma_filled(m, n, from, to, erased(m));
    assert forall|r: int, c: int| 0 <= r < m.rows && 0 <= c < m.cols implies #[trigger] shown(
        n,
        r,
        c,
    ) == (if r == m.cursor.y && (mode == 0 && c >= m.cursor.x || mode == 1 && c <= m.cursor.x
        || mode == 2) {
        erased(m)
    } else {
        shown(m, r, c)
    }) by {
        lemma_cell_order(r, c, m.cursor.y as int, m.cols as int, m.rows as int);
    }
}

proof fn lemma_screen_effect(m: TermModel, mode: nat)
    requires
        at_rest(m),
        mode <= 3,
    ensures
        ({
            let n = effect(m, seq![mode as u32], 'J');
            let start = m.cursor.y * m.cols;
            let total = m.cols * m.rows;
            &&& mode <= 2 ==> stays(m, n)
            &&& mode == 3 ==> stays(m, TermModel { scrollback: m.scrollback, ..n })
                && n.scrollback.len() == 0
            &&& n.cells() == (if mode == 0 {
                fill_range(
                    fill_range(m.cells(), start + m.cursor.x, start + m.cols, erased(m)),
                    (m.cursor.y + 1) * m.cols,
                    total,
                    erased(m),
                )
            } else if mode == 1 {
                fill_range(
                    fill_range(m.cells(), start, start + m.cursor.x + 1, erased(m)),
                    0,
                    start,
                    erased(m),
                )
            } else {
                fill_range(m.cells(), 0, total, erased(m))
            })
        }),
{
    reveal(effect);
}

/// ESC `[` `J` erases on the screen: with 0 the cells from the cursor on and all rows
/// below, with 1 those up to the cursor and with it, and all rows above, with 2 and 3
/// every cell. The scrollback goes with 3 alone, and the cursor stays.
pub proof fn lemma_erase_screen(m: TermModel, mode: nat)
    requires
        at_rest(m),
        mode <= 3,
    ensures
        ({
            let n = fed(m, control(mode, 'J'));
            let y = m.cursor.y;
            &&& n.cursor == m.cursor && n.style == m.style && n.rows == m.rows && n.cols == m.cols
            &&& n.scrollback == (if mode == 3 {
                Seq::empty()
            } else {
                m.scrollback
            })
            &&& forall|r: int, c: int|
                0 <= r < m.rows && 0 <= c < m.cols ==> #[trigger] shown(n, r, c) == (if mode >= 2
                    || mode == 0 && (r > y || r == y && c >= m.cursor.x) || mode == 1 && (r < y
                    || r == y && c <= m.cursor.x) {
                    erased(m)
                } else {
                    shown(m, r, c)
                })
        }),
{
    lemma_control(m, mode, 'J');
    lemma_screen_effect(m, mode);
    let n = fed(m, control(mode, 'J'));
    let y = m.cursor.y as int;
    assert(n.scrollback =~= (if mode == 3 {
        Seq::empty()
    } else {
        m.scrollback
    }));
    assert forall|r: int, c: int| 0 <= r < m.rows && 0 <= c < m.cols implies #[trigger] shown(
        n,
        r,
        c,
    ) == (if mode >= 2 || mode == 0 && (r > y || r == y && c >= m.cursor.x) || mode == 1 && (r < y
        || r == y && c <= m.cursor.x) {
        erased(m)
    } else {
        shown(m, r, c)
    }) by {
        lemma_cell_order(r, c, y, m.cols as int, m.rows as int);
        lemma_shown(m, r, c);
        lemma_shown(n, r, c);
    }
}

proof fn lemma_chars_effect(m: TermModel, n: nat)
    requires
        at_rest(m),
        1 <= n <= 0xffff,
    ensures
        ({
            let p = seq![n as u32];
            let (start, at) = (m.cursor.y * m.cols, m.cursor.y * m.cols + m.cursor.x);
            let end = (m.cursor.y + 1) * m.cols;
            let k = if n < m.cols - m.cursor.x {
                n as int
            } else {
                m.cols - m.cursor.x
            };
            &&& stays(m, effect(m, p, 'X')) && stays(m, effect(m, p, 'P')) && stays(
                m,
                effect(m, p, '@'),
            )
            &&& effect(m, p, 'X').cells() == fill_range(m.cells(), at, at + n, erased(m))
            &&& effect(m, p, 'P').cells() == shift_left(m.cells(), at, end, k)
            &&& effect(m, p, '@').cells() == shift_right(m.cells(), at, end, k)
        }),
{
    reveal(effect);
}

/// ESC `[` `n` `X` erases `n` cells from the cursor on, and moves none.
pub proof fn lemma_erase_chars(m: TermModel, n: nat)
    requires
        at_rest(m),
        1 <= n <= m.cols - m.cursor.x,
    ensures
        ({
            let e = fed(m, control(n, 'X'));
            &&& stays(m, e)
            &&& forall|r: int, c: int|
                0 <= r < m.rows && 0 <= c < m.cols ==> #[trigger] shown(e, r, c) == (if r
                    == m.cursor.y && m.cursor.x <= c < m.cursor.x + n {
                    erased(m)
                } else {
                    shown(m, r, c)
                })
        }),
{
    lemma_control(m, n, 'X');
    lemma_chars_effect(m, n);
    let e = fed(m, control(n, 'X'));
    let at = m.cursor.y * m.cols + m.cursor.x;
    lemma_filled(m, e, at, at + n, erased(m));
    assert forall|r: int, c: int| 0 <= r < m.rows && 0 <= c < m.cols implies #[trigger] shown(
        e,
        r,
        c,
    ) == (if r == m.cursor.y && m.cursor.x <= c < m.cursor.x + n {
        erased(m)
    } else {
        shown(m, r, c)
    }) by {
        lemma_cell_order(r, c, m.cursor.y as int, m.cols as int, m.rows as int);
    }
}

/// ESC `[` `n` `P` takes `n` cells out at the cursor: what is behind them in the row moves
/// left, and blanks come in at its end.
pub proof fn lemma_delete_chars(m: TermModel, n: nat)
    requires
        at_rest(m),
        1 <= n <= m.cols - m.cursor.x,
    ensures
        ({
            let e = fed(m, control(n, 'P'));
            &&& stays(m, e)
            &&& forall|r: int, c: int|
                0 <= r < m.rows && 0 <= c < m.cols ==> #[trigger] shown(e, r, c) == (if r
                    == m.cursor.y && c >= m.cursor.x {
                    if c + n < m.cols {
                        shown(m, r, c + n)
                    } else {
                        blank()
                    }
                } else {
                    shown(m, r, c)
                })
        }),
{
    lemma_control(m, n, 'P');
    lemma_chars_effect(m, n);
    let e = fed(m, control(n, 'P'));
    assert forall|r: int, c: int| 0 <= r < m.rows && 0 <= c < m.cols implies #[trigger] shown(
        e,
        r,
        c,
    ) == (if r == m.cursor.y && c >= m.cursor.x {
        if c + n < m.cols {
            shown(m, r, c + n)
        } else {
            blank()
        }
    } else {
        shown(m, r, c)
    }) by {
        lemma_cell_order(r, c, m.cursor.y as int, m.cols as int, m.rows as int);
        lemma_shown(m, r, c);
        lemma_shown(e, r, c);
        if c + n < m.cols {
            lemma_shown(m, r, c + n);
        }
    }
}

/// ESC `[` `n` `@` puts `n` blanks in at the cursor: what is there moves right, and what
/// leaves the row is gone.
pub proof fn lemma_insert_chars(m: TermModel, n: nat)
    requires
        at_rest(m),
        1 <= n <= m.cols - m.cursor.x,
    ensures
        ({
            let e = fed(m, control(n, '@'));
            &&& stays(m, e)
            &&& forall|r: int, c: int|
                0 <= r < m.rows && 0 <= c < m.cols ==> #[trigger] shown(e, r, c) == (if r
                    == m.cursor.y && c >= m.cursor.x {
                    if c >= m.cursor.x + n {
                        shown(m, r, c - n)
                    } else {
                        blank()
                    }
                } else {
                    shown(m, r, c)
                })
        }),
{
    lemma_control(m, n, '@');
    lemma_chars_effect(m, n);
    let e = fed(m, control(n, '@'));
    assert forall|r: int, c: int| 0 <= r < m.rows && 0 <= c < m.cols implies #[trigger] shown(
        e,
        r,
        c,
    ) == (if r == m.cursor.y && c >= m.cursor.x {
        if c >= m.cursor.x + n {
            shown(m, r, c - n)
        } else {
            blank()
        }
    } else {
        shown(m, r, c)
    }) by {
        lemma_cell_order(r, c, m.cursor.y as int, m.cols as int, m.rows as int);
        lemma_shown(m, r, c);
        lemma_shown(e, r, c);
        if c >= m.cursor.x + n {
            lemma_shown(m, r, c - n);
        }
    }
}

/// ESC `[` `a` `;` `b` `r` makes the rows `a` to `b`, counted from 1, the ones that scroll,
/// and takes the cursor to the corner. No cell changes.
pub proof fn lemma_scroll_region(m: TermModel, a: nat, b: nat)
    requires
        at_rest(m),
        1 <= a < b <= m.rows,
    ensures
        ({
            let n = fed(m, control_two(a, b, 'r'));
            &&& n.top == a - 1
            &&& n.bottom == b - 1
            &&& n.cursor == (Cursor { x: 0, y: 0, visible: m.cursor.visible })
            &&& n.main == m.main && n.alt == m.alt && n.scrollback == m.scrollback
        }),
{
    lemma_control_two(m, a, b, 'r');
    reveal(effect);
}

// ── Controls ─────────────────────────────────────────────────────────────────

/// One byte.
proof fn lemma_fed_byte(m: TermModel, b: u8)
    ensures
        fed(m, seq![b]) == m.step(b),
{
    reveal(fed);
    lemma_byte_run(m, b);
}

/// A carriage return takes the cursor to the first column of its row, a backspace one
/// column back, and a tab on to the next column that is a multiple of eight, or the last.
pub proof fn lemma_cursor_controls(m: TermModel)
    requires
        at_rest(m),
    ensures
        ({
            let x = m.cursor.x as int;
            let y = m.cursor.y as int;
            let stop = (x / 8 + 1) * 8;
            &&& moved_to(m, fed(m, seq![0x0du8]), 0, y)
            &&& moved_to(
                m,
                fed(m, seq![0x08u8]),
                if x > 0 {
                    x - 1
                } else {
                    0
                },
                y,
            )
            &&& stop < 0x10000 ==> moved_to(
                m,
                fed(m, seq![0x09u8]),
                if stop < m.cols {
                    stop
                } else {
                    m.cols - 1
                },
                y,
            )
        }),
{
    lemma_fed_byte(m, 0x0d);
    lemma_fed_byte(m, 0x08);
    lemma_fed_byte(m, 0x09);
}

/// A line feed above the last row that scrolls takes the cursor one row down, in its
/// column, and changes no cell.
pub proof fn lemma_line_feed_moves(m: TermModel)
    requires
        at_rest(m),
        m.cursor.y < m.bottom,
    ensures
        moved_to(m, fed(m, seq![0x0au8]), m.cursor.x as int, m.cursor.y + 1),
{
    lemma_fed_byte(m, 0x0a);
}

/// A line feed in the last row that scrolls moves those rows up by one: each shows what
/// the next showed, the last is blank, and the others stay. The cursor stays.
pub proof fn lemma_line_feed_scrolls(m: TermModel)
    requires
        at_rest(m),
        m.cursor.y == m.bottom,
    ensures
        ({
            let n = fed(m, seq![0x0au8]);
            &&& n.cursor == m.cursor && n.rows == m.rows && n.cols == m.cols
            &&& forall|r: int, c: int|
                0 <= r < m.rows && 0 <= c < m.cols ==> #[trigger] shown(n, r, c) == (if m.top <= r
                    < m.bottom {
                    shown(m, r + 1, c)
                } else if r == m.bottom {
                    blank()
                } else {
                    shown(m, r, c)
                })
        }),
{
    lemma_fed_byte(m, 0x0a);
    let n = fed(m, seq![0x0au8]);
    let (top, end) = (m.top * m.cols, (m.bottom + 1) * m.cols);
    assert(n.cells() == shift_left(m.cells(), top, end, m.cols as int));
    assert forall|r: int, c: int| 0 <= r < m.rows && 0 <= c < m.cols implies #[trigger] shown(
        n,
        r,
        c,
    ) == (if m.top <= r < m.bottom {
        shown(m, r + 1, c)
    } else if r == m.bottom {
        blank()
    } else {
        shown(m, r, c)
    }) by {
        lemma_cell_order(r, c, m.top as int, m.cols as int, m.rows as int);
        lemma_cell_order(r, c, m.bottom as int, m.cols as int, m.rows as int);
        lemma_shown(m, r, c);
        lemma_shown(n, r, c);
        if r < m.bottom {
            lemma_shown(m, r + 1, c);
            lemma_cell_order(r + 1, c, m.bottom as int, m.cols as int, m.rows as int);
            assert((r + 1) * m.cols == r * m.cols + m.cols) by (nonlinear_arith);
        }
    }
}

/// A line feed at the foot of the main screen loses no line: every line keeps its place,
/// counted from the oldest, and a blank one comes in behind the last. Where the
/// scrollback is full the oldest line goes.
pub proof fn lemma_line_feed_keeps_lines(m: TermModel)
    requires
        at_rest(m),
        !m.alt_active,
        m.top == 0,
        m.bottom == m.rows - 1,
        m.cursor.y == m.bottom,
    ensures
        ({
            let n = fed(m, seq![0x0au8]);
            let gone: int = if m.scrollback.len() < 4000 {
                0
            } else {
                1
            };
            &&& n.scrollback.len() == m.scrollback.len() + 1 - gone
            &&& forall|i: int|
                0 <= i < m.scrollback.len() + m.rows - gone ==> #[trigger] n.line(i) == m.line(
                    i + gone,
                )
            &&& forall|c: int|
                0 <= c < m.cols ==> #[trigger] n.line(m.scrollback.len() + m.rows - gone)[c]
                    == blank()
        }),
{
    lemma_line_feed_scrolls(m);
    lemma_fed_byte(m, 0x0a);
    let n = fed(m, seq![0x0au8]);
    let gone: int = if m.scrollback.len() < 4000 {
        0
    } else {
        1
    };
    let first = m.main.subrange(0, m.cols as int);
    assert(m.line(m.scrollback.len() as int) =~= first) by {
        assert(0 * m.cols == 0 && (0 + 1) * m.cols == m.cols) by (nonlinear_arith);
    }
    assert forall|i: int| 0 <= i < m.scrollback.len() + m.rows - gone implies #[trigger] n.line(i)
        == m.line(i + gone) by {
        if i >= n.scrollback.len() {
            let r = i - n.scrollback.len();
            lemma_row_bound(r, m.rows as int, m.cols as int);
            lemma_row_bound(r + 1, m.rows as int, m.cols as int);
            assert(m.rows * m.cols == m.cols * m.rows) by (nonlinear_arith);
            assert(n.line(i).len() == m.cols);
            assert(m.line(i + gone).len() == m.cols);
            assert forall|c: int| 0 <= c < m.cols implies n.line(i)[c] == m.line(i + gone)[c] by {
                assert(shown(n, r, c) == shown(m, r + 1, c));
            }
            assert(n.line(i) =~= m.line(i + gone));
        }
    }
    assert forall|c: int| 0 <= c < m.cols implies #[trigger] n.line(
        m.scrollback.len() + m.rows - gone,
    )[c] == blank() by {
        assert(shown(n, m.bottom as int, c) == blank());
    }
}

// ── Text ─────────────────────────────────────────────────────────────────────

proof fn lemma_fed_join(m: TermModel, a: Seq<u8>, b: Seq<u8>)
    ensures
        fed(m, a + b) == fed(fed(m, a), b),
{
    reveal(fed);
    lemma_chunks(m, a, b);
}

/// A byte that begins a character of several bytes or goes on with it.
proof fn lemma_part(m: TermModel, u: Seq<u8>, b: u8)
    requires
        m.parse is Ground,
        m.utf8 == u,
        b >= 0x80,
        u.push(b).len() < utf8_need(u.push(b)[0]),
    ensures
        fed(m, seq![b]) == (TermModel { utf8: u.push(b), ..m }),
{
    lemma_fed_byte(m, b);
}

/// The byte that ends a character.
proof fn lemma_last_part(m: TermModel, u: Seq<u8>, b: u8, c: char)
    requires
        m.parse is Ground,
        m.utf8 == u,
        0x20 <= b,
        b != 0x7f,
        u.push(b).len() == utf8_need(u.push(b)[0]),
        utf8_char(u.push(b)) == Some(c),
    ensures
        fed(m, seq![b]) == (TermModel { utf8: Seq::empty(), ..m }).written(c),
{
    lemma_fed_byte(m, b);
}

/// A character that takes a cell is written.
proof fn lemma_char_fed(m: TermModel, c: char)
    requires
        m.parse is Ground,
        m.utf8.len() == 0,
        showable(c),
    ensures
        fed(m, encode_utf8(seq![c])) == m.written(c),
{
    let n = c as u32;
    reveal_with_fuel(encode_utf8, 2);
    assert(seq![c].drop_first() =~= Seq::empty());
    assert(encode_utf8(seq![c]) =~= encode_scalar(n));
    let none = Seq::<u8>::empty();
    assert(m.utf8 =~= none);
    assert((TermModel { utf8: none, ..m }) == m);
    if n <= 0x7f {
        lemma_width_one(n);
        let a = leading_byte_width_1(n);
        assert(encode_scalar(n) =~= seq![a]);
        lemma_last_part(m, none, a, c);
    } else if n <= 0x7ff {
        lemma_width_two(n);
        let (a, b) = (leading_byte_width_2(n), last_continuation_byte(n));
        assert(encode_scalar(n) =~= seq![a] + seq![b]);
        lemma_fed_join(m, seq![a], seq![b]);
        lemma_part(m, none, a);
        lemma_last_part(TermModel { utf8: none.push(a), ..m }, none.push(a), b, c);
    } else if n <= 0xffff {
        lemma_width_three(n);
        let (a, b) = (leading_byte_width_3(n), second_last_continuation_byte(n));
        let d = last_continuation_byte(n);
        assert(encode_scalar(n) =~= seq![a] + seq![b] + seq![d]);
        lemma_fed_join(m, seq![a] + seq![b], seq![d]);
        lemma_fed_join(m, seq![a], seq![b]);
        let u1 = none.push(a);
        let u2 = u1.push(b);
        lemma_part(m, none, a);
        lemma_part(TermModel { utf8: u1, ..m }, u1, b);
        lemma_last_part(TermModel { utf8: u2, ..m }, u2, d, c);
    } else {
        lemma_width_four(n);
        let (a, b) = (leading_byte_width_4(n), third_last_continuation_byte(n));
        let (d, e) = (second_last_continuation_byte(n), last_continuation_byte(n));
        assert(encode_scalar(n) =~= seq![a] + seq![b] + seq![d] + seq![e]);
        lemma_fed_join(m, seq![a] + seq![b] + seq![d], seq![e]);
        lemma_fed_join(m, seq![a] + seq![b], seq![d]);
        lemma_fed_join(m, seq![a], seq![b]);
        let u1 = none.push(a);
        let u2 = u1.push(b);
        let u3 = u2.push(d);
        lemma_part(m, none, a);
        lemma_part(TermModel { utf8: u1, ..m }, u1, b);
        lemma_part(TermModel { utf8: u2, ..m }, u2, d);
        lemma_last_part(TermModel { utf8: u3, ..m }, u3, e, c);
    }
}

/// A character takes the cell under the cursor, in the style that is set, and no other
/// cell changes. The cursor goes on to the next column; in the last one it stays, and
/// the row is full.
pub proof fn lemma_text_written(m: TermModel, ch: char)
    requires
        at_rest(m),
        m.utf8.len() == 0,
        !m.pending_wrap,
        showable(ch),
    ensures
        ({
            let n = fed(m, encode_utf8(seq![ch]));
            &&& n.cursor.y == m.cursor.y && n.cursor.visible == m.cursor.visible
            &&& n.cursor.x == (if m.cursor.x + 1 < m.cols {
                m.cursor.x + 1
            } else {
                m.cursor.x as int
            })
            &&& n.pending_wrap == (m.cursor.x + 1 == m.cols && m.wrap)
            &&& n.scrollback == m.scrollback && n.style == m.style
            &&& n.rows == m.rows && n.cols == m.cols
            &&& forall|r: int, c: int|
                0 <= r < m.rows && 0 <= c < m.cols ==> #[trigger] shown(n, r, c) == (if r
                    == m.cursor.y && c == m.cursor.x {
                    Cell { ch, style: m.style }
                } else {
                    shown(m, r, c)
                })
        }),
{
    lemma_char_fed(m, ch);
    let n = fed(m, encode_utf8(seq![ch]));
    let cell = Cell { ch, style: m.style };
    assert(n.cells() == fill_range(m.cells(), m.at(), m.at() + 1, cell));
    lemma_filled(m, n, m.at(), m.at() + 1, cell);
    assert forall|r: int, c: int| 0 <= r < m.rows && 0 <= c < m.cols implies #[trigger] shown(
        n,
        r,
        c,
    ) == (if r == m.cursor.y && c == m.cursor.x {
        cell
    } else {
        shown(m, r, c)
    }) by {
        lemma_cell_order(r, c, m.cursor.y as int, m.cols as int, m.rows as int);
    }
}

/// A character behind a full row goes where it would go after a carriage return and a
/// line feed.
pub proof fn lemma_text_wraps(m: TermModel, ch: char)
    requires
        at_rest(m),
        m.utf8.len() == 0,
        m.pending_wrap,
        showable(ch),
    ensures
        fed(m, encode_utf8(seq![ch])) == fed(
            fed(fed(m, seq![0x0du8]), seq![0x0au8]),
            encode_utf8(seq![ch]),
        ),
{
    lemma_char_fed(m, ch);
    lemma_fed_byte(m, 0x0d);
    let a = fed(m, seq![0x0du8]);
    lemma_fed_byte(a, 0x0a);
    let b = fed(a, seq![0x0au8]);
    lemma_char_fed(b, ch);
    assert(b == (TermModel { pending_wrap: false, ..m.with_cursor(0, m.cursor.y) }).line_fed());
}

// ── Styles ───────────────────────────────────────────────────────────────────

/// Whether `b` differs from `a` in the attribute `flag` alone, which is on or off.
pub open spec fn flagged(a: Attributes, b: Attributes, flag: u16, on: bool) -> bool {
    &&& b.holds(flag) == on
    &&& forall|other: u16| flag & other == 0 ==> #[trigger] b.holds(other) == a.holds(other)
}

proof fn lemma_flagged(a: Attributes, flag: u16, on: bool)
    requires
        flag != 0,
    ensures
        flagged(a, a.with(flag, on), flag, on),
{
    assert forall|other: u16| flag & other == 0 implies #[trigger] a.with(flag, on).holds(other)
        == a.holds(other) by {
        lemma_set_has(a, flag, on, other);
    }
    assert(flag & 0 == 0) by (bit_vector);
    lemma_set_has(a, flag, on, 0);
}

/// The style after ESC `[` `n` `m`.
pub open spec fn restyled(m: TermModel, n: nat) -> Style {
    fed(m, control(n, 'm')).style
}

proof fn lemma_restyled(m: TermModel, n: nat)
    requires
        m.parse is Ground,
        n <= 0xffff,
        n != 38,
        n != 48,
    ensures
        restyled(m, n) == sgr_simple(m.style, n as u32),
        fed(m, control(n, 'm')) == (TermModel {
            style: restyled(m, n),
            ..idle(m)
        }),
{
    lemma_control(m, n, 'm');
    reveal(effect);
    reveal_with_fuel(sgr_from, 2);
}

/// The numbers of ESC `[` `n` `m` that switch an attribute on: 1 bold, 2 dim, 3 italic,
/// 4 and 21 underlined, 5 and 6 blinking, 7 reversed, 8 hidden, 9 struck out. The colors
/// and the other attributes stay.
pub proof fn lemma_attributes_on(m: TermModel)
    requires
        m.parse is Ground,
    ensures
        ({
            let a = m.style.attrs;
            &&& flagged(a, restyled(m, 1).attrs, Attributes::BOLD, true)
            &&& flagged(a, restyled(m, 2).attrs, Attributes::DIM, true)
            &&& flagged(a, restyled(m, 3).attrs, Attributes::ITALIC, true)
            &&& flagged(a, restyled(m, 4).attrs, Attributes::UNDERLINE, true)
            &&& flagged(a, restyled(m, 21).attrs, Attributes::UNDERLINE, true)
            &&& flagged(a, restyled(m, 5).attrs, Attributes::BLINK, true)
            &&& flagged(a, restyled(m, 6).attrs, Attributes::BLINK, true)
            &&& flagged(a, restyled(m, 7).attrs, Attributes::REVERSE, true)
            &&& flagged(a, restyled(m, 8).attrs, Attributes::HIDDEN, true)
            &&& flagged(a, restyled(m, 9).attrs, Attributes::STRIKE, true)
        }),
        forall|n: nat|
            1 <= n <= 9 || n == 21 ==> (#[trigger] restyled(m, n)).fg == m.style.fg && restyled(
                m,
                n,
            ).bg == m.style.bg,
{
    let a = m.style.attrs;
    lemma_flagged(a, Attributes::BOLD, true);
    lemma_flagged(a, Attributes::DIM, true);
    lemma_flagged(a, Attributes::ITALIC, true);
    lemma_flagged(a, Attributes::UNDERLINE, true);
    lemma_flagged(a, Attributes::BLINK, true);
    lemma_flagged(a, Attributes::REVERSE, true);
    lemma_flagged(a, Attributes::HIDDEN, true);
    lemma_flagged(a, Attributes::STRIKE, true);
    assert forall|n: nat| 1 <= n <= 9 || n == 21 implies (#[trigger] restyled(m, n)).fg
        == m.style.fg && restyled(m, n).bg == m.style.bg && restyled(m, n) == sgr_simple(
        m.style,
        n as u32,
    ) by {
        lemma_restyled(m, n);
    }
}

/// The numbers that switch an attribute off: 22 bold and dim, 23 italic, 24 underlined,
/// 25 blinking, 27 reversed, 28 hidden, 29 struck out. 0 goes back to the plain style.
pub proof fn lemma_attributes_off(m: TermModel)
    requires
        m.parse is Ground,
    ensures
        ({
            let a = m.style.attrs;
            &&& !restyled(m, 22).attrs.holds(Attributes::BOLD)
            &&& !restyled(m, 22).attrs.holds(Attributes::DIM)
            &&& restyled(m, 22).attrs.holds(Attributes::ITALIC) == a.holds(Attributes::ITALIC)
            &&& flagged(a, restyled(m, 23).attrs, Attributes::ITALIC, false)
            &&& flagged(a, restyled(m, 24).attrs, Attributes::UNDERLINE, false)
            &&& flagged(a, restyled(m, 25).attrs, Attributes::BLINK, false)
            &&& flagged(a, restyled(m, 27).attrs, Attributes::REVERSE, false)
            &&& flagged(a, restyled(m, 28).attrs, Attributes::HIDDEN, false)
            &&& flagged(a, restyled(m, 29).attrs, Attributes::STRIKE, false)
            &&& restyled(m, 0) == plain_style()
        }),
        forall|n: nat|
            22 <= n <= 29 ==> (#[trigger] restyled(m, n)).fg == m.style.fg && restyled(m, n).bg
                == m.style.bg,
{
    let a = m.style.attrs;
    lemma_flagged(a, Attributes::BOLD, false);
    let b = a.with(Attributes::BOLD, false);
    lemma_flagged(b, Attributes::DIM, false);
    assert(Attributes::DIM & Attributes::BOLD == 0 && Attributes::BOLD & Attributes::ITALIC == 0
        && Attributes::DIM & Attributes::ITALIC == 0) by (bit_vector);
    assert(b.with(Attributes::DIM, false).holds(Attributes::BOLD) == b.holds(Attributes::BOLD));
    assert(b.with(Attributes::DIM, false).holds(Attributes::ITALIC) == b.holds(
        Attributes::ITALIC,
    ));
    lemma_flagged(a, Attributes::ITALIC, false);
    lemma_flagged(a, Attributes::UNDERLINE, false);
    lemma_flagged(a, Attributes::BLINK, false);
    lemma_flagged(a, Attributes::REVERSE, false);
    lemma_flagged(a, Attributes::HIDDEN, false);
    lemma_flagged(a, Attributes::STRIKE, false);
    lemma_restyled(m, 0);
    assert forall|n: nat| 22 <= n <= 29 implies (#[trigger] restyled(m, n)).fg == m.style.fg
        && restyled(m, n).bg == m.style.bg && restyled(m, n) == sgr_simple(
        m.style,
        n as u32,
    ) by {
        lemma_restyled(m, n);
    }
}

/// The numbers of the sixteen colors: 30 to 37 and 90 to 97 for characters, 40 to 47
/// and 100 to 107 for what is behind them; 39 and 49 choose none. The attributes stay.
pub proof fn lemma_sixteen_colors(m: TermModel, k: nat)
    requires
        m.parse is Ground,
        k < 8,
    ensures
        restyled(m, 30 + k) == (Style { fg: Color::Indexed(k as u8), ..m.style }),
        restyled(m, 90 + k) == (Style { fg: Color::Indexed((8 + k) as u8), ..m.style }),
        restyled(m, 40 + k) == (Style { bg: Color::Indexed(k as u8), ..m.style }),
        restyled(m, 100 + k) == (Style { bg: Color::Indexed((8 + k) as u8), ..m.style }),
        restyled(m, 39) == (Style { fg: Color::Default, ..m.style }),
        restyled(m, 49) == (Style { bg: Color::Default, ..m.style }),
{
    lemma_restyled(m, 30 + k);
    lemma_restyled(m, 90 + k);
    lemma_restyled(m, 40 + k);
    lemma_restyled(m, 100 + k);
    lemma_restyled(m, 39);
    lemma_restyled(m, 49);
}

/// The bytes of ESC `[`, numbers with semicolons between them, and a last character.
pub open spec fn control_list(p: Seq<u32>, last: char) -> Seq<u8> {
    encode_utf8(seq!['\u{1b}', '['] + params_text(p) + seq![last])
}

proof fn lemma_control_list(m: TermModel, p: Seq<u32>, last: char)
    requires
        m.parse is Ground,
        in_range(p),
        p.len() > 0,
        '@' <= last <= '~',
    ensures
        fed(m, control_list(p, last)) == effect(m, p, last),
{
    let t = seq!['\u{1b}', '['] + params_text(p) + seq![last];
    lemma_params(p);
    assert forall|i: int| 0 <= i < t.len() implies 0 <= #[trigger] t[i] as int && t[i] as int
        <= 127 by {
        if 2 <= i < t.len() - 1 {
            assert(t[i] == params_text(p)[i - 2]);
        }
    }
    lemma_ascii_bytes(t);
    assert(encode_utf8(t) =~= seq![0x1bu8, 0x5bu8] + ascii(params_text(p)) + seq![last as u8]);
    lemma_sequence_run(m, p, last as u8);
    reveal(effect);
    reveal(fed);
}

/// 38 and 48 are followed by 5 and one of 256 colors, or by 2 and the red, green and blue
/// of a color.
pub proof fn lemma_extended_colors(m: TermModel, n: u8, r: u8, g: u8, b: u8)
    requires
        m.parse is Ground,
    ensures
        fed(m, control_list(seq![38, 5, n as u32], 'm')).style == (Style {
            fg: Color::Indexed(n),
            ..m.style
        }),
        fed(m, control_list(seq![48, 5, n as u32], 'm')).style == (Style {
            bg: Color::Indexed(n),
            ..m.style
        }),
        fed(m, control_list(seq![38, 2, r as u32, g as u32, b as u32], 'm')).style == (Style {
            fg: Color::Rgb(r, g, b),
            ..m.style
        }),
        fed(m, control_list(seq![48, 2, r as u32, g as u32, b as u32], 'm')).style == (Style {
            bg: Color::Rgb(r, g, b),
            ..m.style
        }),
{
    lemma_control_list(m, seq![38, 5, n as u32], 'm');
    lemma_control_list(m, seq![48, 5, n as u32], 'm');
    lemma_control_list(m, seq![38, 2, r as u32, g as u32, b as u32], 'm');
    lemma_control_list(m, seq![48, 2, r as u32, g as u32, b as u32], 'm');
    reveal(effect);
    reveal_with_fuel(sgr_from, 2);
}

// ── Sequences for the host ───────────────────────────────────────────────────

/// Whether `n` is `m` with an OSC sequence begun.
spec fn in_osc(m: TermModel, n: TermModel) -> bool {
    n == TermModel { parse: ParseState::Osc, osc_left: n.osc_left, ..m } && n.osc_left != 1
}

proof fn lemma_osc_body(m: TermModel, body: Seq<u8>)
    requires
        m.parse is Ground,
        forall|i: int| 0 <= i < body.len() ==> #[trigger] body[i] != 0x07 && body[i] != 0x1b,
    ensures
        in_osc(m, fed(m, seq![0x1bu8, 0x5du8] + body)),
    decreases body.len(),
{
    if body.len() == 0 {
        assert(seq![0x1bu8, 0x5du8] + body =~= seq![0x1bu8] + seq![0x5du8]);
        lemma_fed_join(m, seq![0x1bu8], seq![0x5du8]);
        lemma_fed_byte(m, 0x1b);
        lemma_fed_byte(fed(m, seq![0x1bu8]), 0x5d);
    } else {
        let f = body.drop_last();
        assert forall|i: int| 0 <= i < f.len() implies #[trigger] f[i] != 0x07 && f[i] != 0x1b by {
            assert(f[i] == body[i]);
        }
        lemma_osc_body(m, f);
        let b = body[body.len() - 1];
        assert(seq![0x1bu8, 0x5du8] + body =~= (seq![0x1bu8, 0x5du8] + f) + seq![b]);
        lemma_fed_join(m, seq![0x1bu8, 0x5du8] + f, seq![b]);
        lemma_fed_byte(fed(m, seq![0x1bu8, 0x5du8] + f), b);
    }
}

/// What a program tells the host, such as a title, between ESC `]` and BEL or ESC `\`, is
/// neither shown nor obeyed: no cell changes, and the cursor and the style stay.
pub proof fn lemma_titles_pass(m: TermModel, body: Seq<u8>)
    requires
        m.parse is Ground,
        forall|i: int| 0 <= i < body.len() ==> #[trigger] body[i] != 0x07 && body[i] != 0x1b,
    ensures
        ({
            let n = fed(m, seq![0x1bu8, 0x5du8] + body + seq![0x07u8]);
            n == TermModel { osc_left: n.osc_left, ..m }
        }),
        ({
            let n = fed(m, seq![0x1bu8, 0x5du8] + body + seq![0x1bu8, 0x5cu8]);
            n == TermModel { osc_left: n.osc_left, ..m }
        }),
{
    let front = seq![0x1bu8, 0x5du8] + body;
    lemma_osc_body(m, body);
    let s = fed(m, front);
    lemma_fed_join(m, front, seq![0x07u8]);
    lemma_fed_byte(s, 0x07);
    lemma_fed_join(m, front, seq![0x1bu8, 0x5cu8]);
    assert(seq![0x1bu8, 0x5cu8] =~= seq![0x1bu8] + seq![0x5cu8]);
    lemma_fed_join(s, seq![0x1bu8], seq![0x5cu8]);
    lemma_fed_byte(s, 0x1b);
    lemma_fed_byte(fed(s, seq![0x1bu8]), 0x5c);
}

/// In the last column of a terminal that does not wrap, a character takes the cell of the
/// one before it, and the row below stays as it is.
pub proof fn lemma_no_wrap(m: TermModel, a: char, b: char)
    requires
        at_rest(m),
        m.utf8.len() == 0,
        !m.wrap,
        !m.pending_wrap,
        m.cursor.x == m.cols - 1,
        showable(a),
        showable(b),
    ensures
        ({
            let n = fed(fed(m, encode_utf8(seq![a])), encode_utf8(seq![b]));
            &&& n.cursor == m.cursor
            &&& shown(n, m.cursor.y as int, m.cursor.x as int) == (Cell { ch: b, style: m.style })
            &&& forall|r: int, c: int|
                0 <= r < m.rows && 0 <= c < m.cols && (r != m.cursor.y || c != m.cursor.x)
                    ==> #[trigger] shown(n, r, c) == shown(m, r, c)
        }),
{
    lemma_char_fed(m, a);
    lemma_text_written(m, a);
    let s = fed(m, encode_utf8(seq![a]));
    assert(s.wf() && s.on_grid());
    assert(s.parse is Ground && s.utf8.len() == 0 && !s.pending_wrap);
    lemma_text_written(s, b);
    let n = fed(s, encode_utf8(seq![b]));
    assert forall|r: int, c: int|
        0 <= r < m.rows && 0 <= c < m.cols && (r != m.cursor.y || c != m.cursor.x) implies #[trigger] shown(
        n,
        r,
        c,
    ) == shown(m, r, c) by {
        assert(shown(s, r, c) == shown(m, r, c));
    }
}

} // verus!

//! What is written out for a frame, shown on a screen that shows the frame before,
//! makes it show the new frame.
use vstd::prelude::*;
use vstd::utf8::{
    encode_scalar, encode_utf8, is_ascii_chars, is_ascii_chars_encode_utf8, last_continuation_byte,
    leading_byte_width_1, leading_byte_width_2, leading_byte_width_3, leading_byte_width_4,
    second_last_continuation_byte, third_last_continuation_byte,
};
use crate::terminal_emulator::{blank, is_continuation, plain_style, Attributes, Cell, Style};
use crate::text::{dec, lemma_encode_join};
use crate::ui::ansi::{clear_text, move_text, params_text, sgr_codes, sgr_texts};
use crate::ui::render::{
    box_inverted, caret, drawable, frame_emitted, frame_grid, frame_text, pointer_glyph, rendered,
    row_differs, row_inverted, rows_emitted, selection_drawn, FrameModel,
};
use crate::ui::screen::{
    listed_width, lossy_first, number_of, numbers_of, stamp_need, styled_at, styled_from, GridModel,
    Parse, StampModel,
};
use crate::ui::terminal_view::{cells_drawn, style_before};
use crate::ui::transitions::{
    ascii, in_range, known, lemma_csi_bytes, lemma_params, lemma_sgr_round_trip, lemma_stamp_chunks,
};

verus! {

/// A character that takes a cell when it is written.
pub open spec fn showable(c: char) -> bool {
    c as u32 >= 0x20 && c as u32 != 0x7f
}

/// A row that can be written: every character takes a cell, and every style is made
/// of the known attributes.
pub open spec fn writable(row: Seq<Cell>) -> bool {
    &&& forall|x: int| 0 <= x < row.len() ==> showable((#[trigger] row[x]).ch)
    &&& forall|x: int| 0 <= x < row.len() ==> (#[trigger] row[x]).style.attrs.0 < 256
}

/// Between two sequences and characters.
pub open spec fn ready(m: StampModel) -> bool {
    m.parse is Text && m.utf.len() == 0 && m.grid.wf()
}

// ── Characters ───────────────────────────────────────────────────────────────

pub(crate) proof fn lemma_run_join(m: StampModel, a: Seq<char>, b: Seq<char>)
    ensures
        m.run(encode_utf8(a + b)) == m.run(encode_utf8(a)).run(encode_utf8(b)),
{
    lemma_encode_join(a, b);
    lemma_stamp_chunks(m, encode_utf8(a), encode_utf8(b));
}

proof fn lemma_run_one(m: StampModel, b: u8)
    ensures
        m.run(seq![b]) == m.step(b),
{
    reveal_with_fuel(StampModel::run, 2);
    assert(seq![b].drop_last() =~= Seq::empty());
}

proof fn lemma_run_two(m: StampModel, a: u8, b: u8)
    ensures
        m.run(seq![a, b]) == m.step(a).step(b),
{
    lemma_run_one(m, a);
    assert(seq![a, b].drop_last() =~= seq![a]);
}

proof fn lemma_run_three(m: StampModel, a: u8, b: u8, c: u8)
    ensures
        m.run(seq![a, b, c]) == m.step(a).step(b).step(c),
{
    lemma_run_two(m, a, b);
    assert(seq![a, b, c].drop_last() =~= seq![a, b]);
}

proof fn lemma_run_four(m: StampModel, a: u8, b: u8, c: u8, d: u8)
    ensures
        m.run(seq![a, b, c, d]) == m.step(a).step(b).step(c).step(d),
{
    lemma_run_three(m, a, b, c);
    assert(seq![a, b, c, d].drop_last() =~= seq![a, b, c]);
}

pub(crate) proof fn lemma_width_one(c: u32)
    requires
        c <= 0x7f,
    ensures
        leading_byte_width_1(c) == c,
{
    assert((c & 0x7f) as u8 == c) by (bit_vector)
        requires
            c <= 0x7f,
    ;
}

pub(crate) proof fn lemma_width_two(c: u32)
    requires
        0x80 <= c <= 0x7ff,
    ensures
        ({
            let a = leading_byte_width_2(c);
            let b = last_continuation_byte(c);
            &&& 0xc2 <= a <= 0xdf
            &&& 0x80 <= b < 0xc0
            &&& a % 32 * 64 + b % 64 == c
        }),
{
    assert({
        let a = 0xc0u8 | ((c >> 6) & 0x1f) as u8;
        let b = 0x80u8 | (c & 0x3f) as u8;
        &&& 0xc2 <= a && a <= 0xdf
        &&& 0x80 <= b && b < 0xc0
        &&& a % 32 * 64 + b % 64 == c
    }) by (bit_vector)
        requires
            0x80 <= c && c <= 0x7ff,
    ;
}

pub(crate) proof fn lemma_width_three(c: u32)
    requires
        0x800 <= c <= 0xffff,
        !(0xd800 <= c <= 0xdfff),
    ensures
        ({
            let a = leading_byte_width_3(c);
            let b = second_last_continuation_byte(c);
            let d = last_continuation_byte(c);
            &&& 0xe0 <= a <= 0xef
            &&& 0x80 <= b < 0xc0
            &&& 0x80 <= d < 0xc0
            &&& a == 0xe0 ==> b >= 0xa0
            &&& a == 0xed ==> b < 0xa0
            &&& a % 16 * 4096 + b % 64 * 64 + d % 64 == c
        }),
{
    assert({
        let a = 0xe0u8 | ((c >> 12) & 0x0f) as u8;
        let b = 0x80u8 | ((c >> 6) & 0x3f) as u8;
        let d = 0x80u8 | (c & 0x3f) as u8;
        &&& 0xe0 <= a && a <= 0xef
        &&& 0x80 <= b && b < 0xc0
        &&& 0x80 <= d && d < 0xc0
        &&& (a == 0xe0 ==> b >= 0xa0)
        &&& (a == 0xed ==> b < 0xa0)
        &&& a % 16 * 4096 + b % 64 * 64 + d % 64 == c
    }) by (bit_vector)
        requires
            0x800 <= c && c <= 0xffff,
            !(0xd800 <= c && c <= 0xdfff),
    ;
}

pub(crate) proof fn lemma_width_four(c: u32)
    requires
        0x10000 <= c <= 0x10ffff,
    ensures
        ({
            let a = leading_byte_width_4(c);
            let b = third_last_continuation_byte(c);
            let d = second_last_continuation_byte(c);
            let e = last_continuation_byte(c);
            &&& 0xf0 <= a <= 0xf4
            &&& 0x80 <= b < 0xc0
            &&& 0x80 <= d < 0xc0
            &&& 0x80 <= e < 0xc0
            &&& a == 0xf0 ==> b >= 0x90
            &&& a == 0xf4 ==> b < 0x90
            &&& a % 8 * 262144 + b % 64 * 4096 + d % 64 * 64 + e % 64 == c
        }),
{
    assert({
        let a = 0xf0u8 | ((c >> 18) & 0x7) as u8;
        let b = 0x80u8 | ((c >> 12) & 0x3f) as u8;
        let d = 0x80u8 | ((c >> 6) & 0x3f) as u8;
        let e = 0x80u8 | (c & 0x3f) as u8;
        &&& 0xf0 <= a && a <= 0xf4
        &&& 0x80 <= b && b < 0xc0
        &&& 0x80 <= d && d < 0xc0
        &&& 0x80 <= e && e < 0xc0
        &&& (a == 0xf0 ==> b >= 0x90)
        &&& (a == 0xf4 ==> b < 0x90)
        &&& a % 8 * 262144 + b % 64 * 4096 + d % 64 * 64 + e % 64 == c
    }) by (bit_vector)
        requires
            0x10000 <= c && c <= 0x10ffff,
    ;
}

proof fn lemma_char_two(m: StampModel, c: char)
    requires
        ready(m),
        0x80 <= c as u32 <= 0x7ff,
    ensures
        m.run(encode_scalar(c as u32)) == m.placed(c),
{
    let n = c as u32;
    lemma_width_two(n);
    let a = leading_byte_width_2(n);
    let b = last_continuation_byte(n);
    lemma_run_two(m, a, b);
    assert(m.utf =~= Seq::empty());
    let u1 = m.utf.push(a);
    assert(u1[0] == a);
    assert(m.step(a) == (StampModel { utf: u1, ..m }));
    let u2 = u1.push(b);
    assert(u2[0] == a && u2[1] == b);
    assert(lossy_first(u2) == c);
    assert(m.step(a).step(b) =~= m.placed(c));
}

proof fn lemma_char_three(m: StampModel, c: char)
    requires
        ready(m),
        0x800 <= c as u32 <= 0xffff,
    ensures
        m.run(encode_scalar(c as u32)) == m.placed(c),
{
    let n = c as u32;
    lemma_width_three(n);
    let a = leading_byte_width_3(n);
    let b = second_last_continuation_byte(n);
    let d = last_continuation_byte(n);
    lemma_run_three(m, a, b, d);
    assert(m.utf =~= Seq::empty());
    let u1 = m.utf.push(a);
    assert(u1[0] == a);
    assert(m.step(a) == (StampModel { utf: u1, ..m }));
    let u2 = u1.push(b);
    assert(u2[0] == a && u2[1] == b);
    assert(m.step(a).step(b) == (StampModel { utf: u2, ..m }));
    let u3 = u2.push(d);
    assert(u3[0] == a && u3[1] == b && u3[2] == d);
    assert(lossy_first(u3) == c);
    assert(m.step(a).step(b).step(d) =~= m.placed(c));
}

proof fn lemma_char_four(m: StampModel, c: char)
    requires
        ready(m),
        0x10000 <= c as u32 <= 0x10ffff,
    ensures
        m.run(encode_scalar(c as u32)) == m.placed(c),
{
    let n = c as u32;
    lemma_width_four(n);
    let a = leading_byte_width_4(n);
    let b = third_last_continuation_byte(n);
    let d = second_last_continuation_byte(n);
    let e = last_continuation_byte(n);
    lemma_run_four(m, a, b, d, e);
    assert(m.utf =~= Seq::empty());
    let u1 = m.utf.push(a);
    assert(u1[0] == a);
    assert(m.step(a) == (StampModel { utf: u1, ..m }));
    let u2 = u1.push(b);
    assert(u2[0] == a && u2[1] == b);
    assert(m.step(a).step(b) == (StampModel { utf: u2, ..m }));
    let u3 = u2.push(d);
    assert(u3[0] == a && u3[1] == b && u3[2] == d);
    assert(m.step(a).step(b).step(d) == (StampModel { utf: u3, ..m }));
    let u4 = u3.push(e);
    assert(u4[0] == a && u4[1] == b && u4[2] == d && u4[3] == e);
    assert(lossy_first(u4) == c);
    assert(m.step(a).step(b).step(d).step(e) =~= m.placed(c));
}

/// A character that is written takes the cell at the position.
pub(crate) proof fn lemma_char(m: StampModel, c: char)
    requires
        ready(m),
        showable(c),
    ensures
        m.run(encode_utf8(seq![c])) == m.placed(c),
{
    let n = c as u32;
    reveal_with_fuel(encode_utf8, 2);
    assert(seq![c].drop_first() =~= Seq::empty());
    assert(encode_utf8(seq![c]) =~= encode_scalar(n));
    if n <= 0x7f {
        lemma_width_one(n);
        let a = leading_byte_width_1(n);
        lemma_run_one(m, a);
        assert(m.utf =~= Seq::empty());
        assert(m.utf.push(a)[0] == a);
        assert(m.step(a) =~= m.placed(c));
    } else if n <= 0x7ff {
        lemma_char_two(m, c);
    } else if n <= 0xffff {
        lemma_char_three(m, c);
    } else {
        lemma_char_four(m, c);
    }
}

// ── Positions ────────────────────────────────────────────────────────────────

/// A sequence with two numbers, as it is read.
pub(crate) proof fn lemma_two_params(m: StampModel, p: Seq<u32>, b: u8)
    requires
        m.parse is Text,
        in_range(p),
        0x40 <= b <= 0x7e,
    ensures
        ({
            let t = seq!['\u{1b}', '['] + params_text(p) + seq![b as char];
            let read = StampModel { parse: Parse::Csi, csi: ascii(params_text(p)), ..m };
            &&& m.run(encode_utf8(t)) == (StampModel { parse: Parse::Text, ..read.csi_done(b) })
            &&& numbers_of(read.csi) == known(p)
        }),
{
    lemma_params(p);
    let digits = ascii(params_text(p));
    let t = seq!['\u{1b}', '['] + params_text(p) + seq![b as char];
    assert(is_ascii_chars(t)) by {
        assert forall|i: int| 0 <= i < t.len() implies 0 <= #[trigger] t[i] as int && t[i] as int
            <= 127 by {
            if 2 <= i < t.len() - 1 {
                assert(t[i] == params_text(p)[i - 2]);
            }
        }
    }
    is_ascii_chars_encode_utf8(t);
    let head = seq![0x1bu8, 0x5bu8];
    let tail = seq![b];
    assert(encode_utf8(t) =~= head + digits + tail);
    lemma_stamp_chunks(m, head + digits, tail);
    lemma_stamp_chunks(m, head, digits);
    lemma_run_two(m, 0x1b, 0x5b);
    let opened = StampModel { parse: Parse::Csi, csi: Seq::empty(), ..m };
    assert(m.run(head) =~= opened);
    assert forall|i: int| 0 <= i < digits.len() implies 0x30 <= #[trigger] digits[i] <= 0x3b by {
        assert('0' <= params_text(p)[i] <= ';');
    }
    lemma_csi_bytes(opened, digits);
    assert(Seq::empty() + digits =~= digits);
    lemma_run_one(opened.run(digits), b);
}

pub(crate) proof fn lemma_move_text(x: int, y: int)
    requires
        0 <= x < 0xffff,
        0 <= y < 0xffff,
    ensures
        ({
            let p = seq![(y + 1) as u32, (x + 1) as u32];
            &&& in_range(p)
            &&& move_text(x, y) == seq!['\u{1b}', '['] + params_text(p) + seq!['H']
        }),
{
    let p = seq![(y + 1) as u32, (x + 1) as u32];
    let one = seq![(y + 1) as u32];
    assert(p.drop_last() =~= one);
    assert(params_text(one) == dec((y + 1) as nat));
    assert(params_text(p) == params_text(one).push(';') + dec((x + 1) as nat));
    reveal_strlit("\u{1b}[");
    reveal_strlit(";");
    reveal_strlit("H");
    assert(move_text(x, y) =~= seq!['\u{1b}', '['] + params_text(p) + seq!['H']);
}

pub(crate) proof fn lemma_move(m: StampModel, x: int, y: int)
    requires
        ready(m),
        0 <= x < m.grid.w,
        0 <= y < m.grid.h,
    ensures
        ({
            let n = m.run(encode_utf8(move_text(x, y)));
            n == StampModel { x: x as u16, y: y as u16, csi: n.csi, ..m }
        }),
{
    let p = seq![(y + 1) as u32, (x + 1) as u32];
    lemma_move_text(x, y);
    lemma_two_params(m, p, 0x48);
    let k = known(p);
    assert(k[0] == Some((y + 1) as u16) && k[1] == Some((x + 1) as u16));
}

pub(crate) proof fn lemma_clear(m: StampModel)
    requires
        ready(m),
    ensures
        ({
            let n = m.run(encode_utf8(clear_text()));
            &&& ready(n)
            &&& n.grid == GridModel::fresh(m.grid.w, m.grid.h)
            &&& n.style == plain_style()
            &&& n.x == 0
            &&& n.y == 0
        }),
{
    let t = clear_text();
    reveal_strlit("\u{1b}[2J\u{1b}[H");
    assert(is_ascii_chars(t));
    is_ascii_chars_encode_utf8(t);
    let a = seq![0x1bu8, 0x5bu8, 0x32u8, 0x4au8];
    let b = seq![0x1bu8, 0x5bu8, 0x48u8];
    assert(encode_utf8(t) =~= a + b);
    lemma_stamp_chunks(m, a, b);
    lemma_run_four(m, 0x1b, 0x5b, 0x32, 0x4a);
    let two = seq![0x32u8];
    assert(Seq::<u8>::empty().push(0x32) =~= two);
    assert(two.drop_last() =~= Seq::empty());
    reveal_with_fuel(crate::ui::screen::digits_value, 2);
    assert(number_of(two) == Some(2u16));
    let n = m.run(a);
    lemma_run_three(n, 0x1b, 0x5b, 0x48);
}

// ── Rows ─────────────────────────────────────────────────────────────────────

pub(crate) proof fn lemma_cells_prefix(t: Seq<char>, row: Seq<Cell>, n: int)
    ensures
        cells_drawn(t, row, n) == t + cells_drawn(Seq::empty(), row, n),
    decreases n,
{
    if n <= 0 {
        assert(t + Seq::empty() =~= t);
    } else {
        lemma_cells_prefix(t, row, n - 1);
        assert(cells_drawn(t, row, n) =~= t + cells_drawn(Seq::empty(), row, n));
    }
}

/// A row of which the first `n` cells are written over.
spec fn over(old_row: Seq<Cell>, row: Seq<Cell>, n: int) -> Seq<Cell> {
    row.take(n) + old_row.skip(n)
}

/// A cell is written in its style.
pub(crate) proof fn lemma_cell(m: StampModel, prev: Option<Style>, c: Cell)
    requires
        ready(m),
        showable(c.ch),
        match prev {
            Some(p) => p == m.style && p.attrs.0 < 256,
            None => true,
        },
        c.style.attrs.0 < 256,
    ensures
        ({
            let r = m.run(encode_utf8(sgr_texts(sgr_codes(prev, c.style)) + seq![c.ch]));
            &&& r.parse is Text
            &&& r.utf.len() == 0
            &&& r.grid == m.grid.with(m.x as int, m.y as int, c)
            &&& r.y == m.y
            &&& r.x == (if m.x + 1 < m.grid.w {
                m.x + 1
            } else {
                m.x as int
            })
            &&& r.style == c.style
        }),
{
    let codes = sgr_texts(sgr_codes(prev, c.style));
    lemma_run_join(m, codes, seq![c.ch]);
    lemma_sgr_round_trip(m, prev, c.style);
    lemma_char(m.run(encode_utf8(codes)), c.ch);
}

/// A grid of which the first `n` cells of row `y` are written over.
spec fn row_over(g: GridModel, y: int, row: Seq<Cell>, n: int) -> GridModel {
    GridModel { rows: g.rows.update(y, over(g.rows[y], row, n)), ..g }
}

proof fn lemma_row_over(g: GridModel, y: int, row: Seq<Cell>, n: int)
    requires
        g.wf(),
        0 <= y < g.h,
        row.len() == g.w,
        0 <= n <= g.w,
    ensures
        row_over(g, y, row, n).wf(),
        row_over(g, y, row, 0) == g,
        n < g.w ==> row_over(g, y, row, n).with(n, y, row[n]) == row_over(g, y, row, n + 1),
        row_over(g, y, row, g.w).rows == g.rows.update(y, row),
{
    let before = g.rows[y];
    assert(before.len() == g.w);
    let now = row_over(g, y, row, n);
    assert forall|k: int| 0 <= k < now.h implies (#[trigger] now.rows[k]).len() == now.w by {
        if k != y {
            assert(now.rows[k] == g.rows[k]);
        }
    }
    assert(over(before, row, 0) =~= before);
    assert(g.rows.update(y, before) =~= g.rows);
    assert(over(before, row, g.w) =~= row);
    if n < g.w {
        assert(over(before, row, n).update(n, row[n]) =~= over(before, row, n + 1));
        assert(now.with(n, y, row[n]).rows =~= row_over(g, y, row, n + 1).rows);
    }
}

proof fn lemma_cells(m: StampModel, row: Seq<Cell>, n: int)
    requires
        ready(m),
        writable(row),
        row.len() == m.grid.w,
        0 <= n <= row.len(),
        m.x == 0,
        m.y < m.grid.h,
    ensures
        ({
            let r = m.run(encode_utf8(cells_drawn(Seq::empty(), row, n)));
            &&& r.parse is Text
            &&& r.utf.len() == 0
            &&& r.y == m.y
            &&& r.x == (if n < m.grid.w {
                n
            } else {
                m.grid.w - 1
            })
            &&& r.grid == row_over(m.grid, m.y as int, row, n)
            &&& n > 0 ==> r.style == row[n - 1].style
        }),
    decreases n,
{
    let y = m.y as int;
    if n == 0 {
        assert(encode_utf8(cells_drawn(Seq::empty(), row, n)) =~= Seq::empty());
        lemma_row_over(m.grid, y, row, 0);
    } else {
        lemma_cells(m, row, n - 1);
        lemma_row_over(m.grid, y, row, n - 1);
        let c = row[n - 1];
        let front = cells_drawn(Seq::empty(), row, n - 1);
        let one = sgr_texts(sgr_codes(style_before(row, n - 1), c.style)) + seq![c.ch];
        assert(cells_drawn(Seq::empty(), row, n) =~= front + one);
        lemma_run_join(m, front, one);
        if n > 1 {
            assert(row[n - 2].style.attrs.0 < 256);
        }
        assert(showable(c.ch));
        lemma_cell(m.run(encode_utf8(front)), style_before(row, n - 1), c);
    }
}

proof fn lemma_row(m: StampModel, row: Seq<Cell>, y: int)
    requires
        ready(m),
        writable(row),
        row.len() == m.grid.w,
        0 <= y < m.grid.h,
    ensures
        ({
            let t = cells_drawn(move_text(0, y), row, m.grid.w) + sgr_texts(
                sgr_codes(style_before(row, m.grid.w), plain_style()),
            );
            let r = m.run(encode_utf8(t));
            &&& ready(r)
            &&& r.grid == GridModel { rows: m.grid.rows.update(y, row), ..m.grid }
        }),
{
    let w = m.grid.w;
    let start = move_text(0, y);
    let cells = cells_drawn(Seq::empty(), row, w);
    let last = sgr_texts(sgr_codes(style_before(row, w), plain_style()));
    lemma_cells_prefix(start, row, w);
    lemma_run_join(m, start + cells, last);
    lemma_run_join(m, start, cells);
    lemma_move(m, 0, y);
    let a = m.run(encode_utf8(start));
    lemma_cells(a, row, w);
    lemma_row_over(m.grid, y, row, w);
    let b = a.run(encode_utf8(cells));
    assert(row[w - 1].style.attrs.0 < 256);
    lemma_sgr_round_trip(b, style_before(row, w), plain_style());
}

// ── Frames ───────────────────────────────────────────────────────────────────

/// Whether the rows that are written out can be.
pub open spec fn changes_writable(prev: GridModel, next: GridModel) -> bool {
    forall|y: int| 0 <= y < next.h && row_differs(prev, next, y) ==> writable(#[trigger] next.rows[y])
}

/// Whether a screen of the size of `next` shows what `prev` holds there.
pub open spec fn shows_frame(screen: GridModel, prev: GridModel, next: GridModel) -> bool {
    &&& screen.w == next.w
    &&& screen.h == next.h
    &&& forall|x: int, y: int|
        next.inside(x, y) ==> screen.cell(x, y) == #[trigger] prev.cell(x, y)
}

/// A grid of which the first `n` rows are those of `next`.
spec fn rows_over(g: GridModel, next: GridModel, n: int) -> GridModel {
    GridModel { rows: next.rows.take(n) + g.rows.skip(n), ..g }
}

proof fn lemma_rows_over(g: GridModel, next: GridModel, n: int)
    requires
        g.wf(),
        next.wf(),
        g.w == next.w,
        g.h == next.h,
        0 <= n < g.h,
    ensures
        rows_over(g, next, n).wf(),
        rows_over(g, next, 0) == g,
        rows_over(g, next, g.h) == next,
        rows_over(g, next, n).rows.update(n, next.rows[n]) == rows_over(g, next, n + 1).rows,
        g.rows[n] == next.rows[n] ==> rows_over(g, next, n) == rows_over(g, next, n + 1),
{
    let now = rows_over(g, next, n);
    assert forall|k: int| 0 <= k < now.h implies (#[trigger] now.rows[k]).len() == now.w by {
        if k < n {
            assert(now.rows[k] == next.rows[k]);
        } else {
            assert(now.rows[k] == g.rows[k]);
        }
    }
    assert(next.rows.take(0) + g.rows.skip(0) =~= g.rows);
    assert(next.rows.take(g.h) + g.rows.skip(g.h) =~= next.rows);
    assert(now.rows.update(n, next.rows[n]) =~= rows_over(g, next, n + 1).rows);
    if g.rows[n] == next.rows[n] {
        assert(now.rows =~= rows_over(g, next, n + 1).rows);
    }
}

/// A row that did not change is on the screen already.
proof fn lemma_row_shown(screen: GridModel, prev: GridModel, next: GridModel, y: int)
    requires
        screen.wf(),
        next.wf(),
        shows_frame(screen, prev, next),
        0 <= y < next.h,
        !row_differs(prev, next, y),
    ensures
        screen.rows[y] == next.rows[y],
{
    assert(screen.rows[y].len() == next.w && next.rows[y].len() == next.w);
    assert forall|x: int| 0 <= x < next.w implies screen.rows[y][x] == next.rows[y][x] by {
        assert(next.inside(x, y));
        assert(screen.cell(x, y) == prev.cell(x, y));
        assert(prev.cell(x, y) == next.cell(x, y));
    }
    assert(screen.rows[y] =~= next.rows[y]);
}

proof fn lemma_rows(m: StampModel, prev: GridModel, next: GridModel, n: int)
    requires
        ready(m),
        next.wf(),
        shows_frame(m.grid, prev, next),
        changes_writable(prev, next),
        0 <= n <= next.h,
    ensures
        ({
            let r = m.run(encode_utf8(rows_emitted(Seq::empty(), prev, next, n)));
            &&& ready(r)
            &&& r.grid == rows_over(m.grid, next, n)
        }),
    decreases n,
{
    if n == 0 {
        assert(encode_utf8(rows_emitted(Seq::empty(), prev, next, n)) =~= Seq::empty());
        lemma_rows_over(m.grid, next, 0);
    } else {
        lemma_rows(m, prev, next, n - 1);
        lemma_rows_over(m.grid, next, n - 1);
        if n < next.h {
            lemma_rows_over(m.grid, next, n);
        }
        let front = rows_emitted(Seq::empty(), prev, next, n - 1);
        let row = next.rows[n - 1];
        if row_differs(prev, next, n - 1) {
            let last = sgr_texts(sgr_codes(style_before(row, next.w), plain_style()));
            let t = cells_drawn(move_text(0, n - 1), row, next.w) + last;
            lemma_cells_prefix(front + move_text(0, n - 1), row, next.w);
            lemma_cells_prefix(move_text(0, n - 1), row, next.w);
            assert(rows_emitted(Seq::empty(), prev, next, n) =~= front + t);
            lemma_run_join(m, front, t);
            lemma_row(m.run(encode_utf8(front)), row, n - 1);
        } else {
            lemma_row_shown(m.grid, prev, next, n - 1);
        }
    }
}

/// Damage tracking loses nothing: on a screen that shows the frame before, what is
/// written out shows the new frame. Where the screen is cleared first, the frame
/// before has to be blank.
pub proof fn lemma_diff_shows_next(
    m: StampModel,
    prev: GridModel,
    next: GridModel,
    full_redraw: bool,
)
    requires
        ready(m),
        next.wf(),
        changes_writable(prev, next),
        if full_redraw || prev.w != next.w || prev.h != next.h {
            &&& m.grid.w == next.w
            &&& m.grid.h == next.h
            &&& forall|x: int, y: int| next.inside(x, y) ==> #[trigger] prev.cell(x, y) == blank()
        } else {
            shows_frame(m.grid, prev, next)
        },
    ensures
        ready(m.run(encode_utf8(frame_emitted(Seq::empty(), prev, next, full_redraw)))),
        m.run(encode_utf8(frame_emitted(Seq::empty(), prev, next, full_redraw))).grid == next,
{
    let h = next.h;
    if full_redraw || prev.w != next.w || prev.h != next.h {
        let t = Seq::<char>::empty() + clear_text();
        assert(t =~= clear_text());
        lemma_clear(m);
        let a = m.run(encode_utf8(clear_text()));
        assert(shows_frame(a.grid, prev, next));
        lemma_rows(a, prev, next, h);
        lemma_rows_prefix(t, prev, next, h);
        lemma_run_join(m, clear_text(), rows_emitted(Seq::empty(), prev, next, h));
        lemma_rows_over(a.grid, next, 0);
    } else {
        lemma_rows(m, prev, next, h);
        lemma_rows_over(m.grid, next, 0);
    }
}

proof fn lemma_rows_prefix(t: Seq<char>, prev: GridModel, next: GridModel, n: int)
    ensures
        rows_emitted(t, prev, next, n) == t + rows_emitted(Seq::empty(), prev, next, n),
    decreases n,
{
    if n <= 0 {
        assert(t + Seq::empty() =~= t);
    } else {
        lemma_rows_prefix(t, prev, next, n - 1);
        if row_differs(prev, next, n - 1) {
            let row = next.rows[n - 1];
            let a = rows_emitted(t, prev, next, n - 1);
            let b = rows_emitted(Seq::empty(), prev, next, n - 1);
            lemma_cells_prefix(a + move_text(0, n - 1), row, next.w);
            lemma_cells_prefix(b + move_text(0, n - 1), row, next.w);
            assert(rows_emitted(t, prev, next, n) =~= t + rows_emitted(
                Seq::empty(),
                prev,
                next,
                n,
            ));
        }
    }
}

// ── Composed frames ──────────────────────────────────────────────────────────

spec fn sound_cell(c: Cell) -> bool {
    showable(c.ch) && c.style.attrs.0 < 256
}

/// Everything on the grid was written there.
spec fn sound(m: StampModel) -> bool {
    &&& m.wf()
    &&& m.style.attrs.0 < 256
    &&& forall|x: int, y: int|
        0 <= y < m.grid.h && 0 <= x < m.grid.w ==> sound_cell(#[trigger] m.grid.rows[y][x])
}

pub(crate) proof fn lemma_attribute_bits(a: Attributes, flag: u16, on: bool)
    requires
        a.0 < 256,
        flag < 256,
    ensures
        a.with(flag, on).0 < 256,
{
    let x = a.0;
    assert((x | flag) < 256 && (x & !flag) < 256) by (bit_vector)
        requires
            x < 256,
            flag < 256,
    ;
}

proof fn lemma_sound_style(s: Style, p: Seq<Option<u16>>, i: int)
    requires
        s.attrs.0 < 256,
    ensures
        styled_from(s, p, i).attrs.0 < 256,
    decreases p.len() - i,
{
    if 0 <= i < p.len() {
        assert forall|a: Attributes, flag: u16, on: bool| a.0 < 256 && flag < 256 implies (
        #[trigger] a.with(flag, on)).0 < 256 by {
            lemma_attribute_bits(a, flag, on);
        }
        lemma_sound_style(styled_at(s, p, i), p, i + listed_width(p, i));
    }
}

/// What is read as a character takes a cell when it is written.
proof fn lemma_read_showable(u: Seq<u8>)
    requires
        u.len() > 0,
        u.len() == stamp_need(u[0]),
        u.len() == 1 ==> u[0] >= 0x20 && u[0] != 0x7f,
    ensures
        showable(lossy_first(u)),
{
    if u[0] <= 0x7f {
    } else if u.len() == 2 {
        if is_continuation(u[1]) {
            let n = u[0] % 32 * 64 + u[1] % 64;
            assert(n >= 0x80 && n <= 0x7ff);
        }
    } else if u.len() == 3 {
        let n = u[0] % 16 * 4096 + u[1] % 64 * 64 + u[2] % 64;
        if lossy_first(u) != '\u{fffd}' {
            assert(n >= 0x800 && n <= 0xffff);
            assert(!(0xd800 <= n <= 0xdfff));
        }
    } else {
        let n = u[0] % 8 * 262144 + u[1] % 64 * 4096 + u[2] % 64 * 64 + u[3] % 64;
        if lossy_first(u) != '\u{fffd}' {
            assert(n >= 0x10000 && n <= 0x10ffff);
        }
    }
}

proof fn lemma_sound_placed(m: StampModel, c: char)
    requires
        sound(m),
        showable(c),
        m.utf.len() == 0,
    ensures
        sound(m.placed(c)),
        m.placed(c).grid.w == m.grid.w,
        m.placed(c).grid.h == m.grid.h,
{
    let n = m.placed(c);
    if m.grid.inside(m.x as int, m.y as int) {
        assert forall|y: int| 0 <= y < n.grid.h implies (#[trigger] n.grid.rows[y]).len()
            == n.grid.w by {
            assert(m.grid.rows[y].len() == m.grid.w);
        }
        assert forall|x: int, y: int| 0 <= y < n.grid.h && 0 <= x < n.grid.w implies sound_cell(
            #[trigger] n.grid.rows[y][x],
        ) by {
            assert(sound_cell(m.grid.rows[y][x]));
        }
    }
}

proof fn lemma_sound_step(m: StampModel, b: u8)
    requires
        sound(m),
    ensures
        sound(m.step(b)),
        m.step(b).grid.w == m.grid.w,
        m.step(b).grid.h == m.grid.h,
{
    match m.parse {
        Parse::Text => {
            if b == 0x1b || b == 0x0d || b == 0x0a || b < 0x20 || b == 0x7f {
            } else {
                let u = m.utf.push(b);
                assert(m.utf.len() > 0 ==> u[0] == m.utf[0]);
                if u.len() >= stamp_need(u[0]) {
                    lemma_read_showable(u);
                    let base = StampModel { utf: Seq::empty(), ..m };
                    lemma_sound_placed(base, lossy_first(u));
                    assert(m.step(b) =~= base.placed(lossy_first(u)));
                }
            }
        },
        Parse::Csi => {
            if b == 0x6d {
                lemma_sound_style(m.style, numbers_of(m.csi), 0);
            }
        },
        _ => {},
    }
}

proof fn lemma_sound_run(m: StampModel, bytes: Seq<u8>)
    requires
        sound(m),
    ensures
        sound(m.run(bytes)),
        m.run(bytes).grid.w == m.grid.w,
        m.run(bytes).grid.h == m.grid.h,
    decreases bytes.len(),
{
    if bytes.len() > 0 {
        lemma_sound_run(m, bytes.drop_last());
        lemma_sound_step(m.run(bytes.drop_last()), bytes.last());
    }
}

proof fn lemma_sound_row(m: StampModel, left: int, y: int, n: int)
    requires
        sound(m),
    ensures
        sound(row_inverted(m, left, y, n)),
        row_inverted(m, left, y, n).grid.w == m.grid.w,
        row_inverted(m, left, y, n).grid.h == m.grid.h,
    decreases n,
{
    if n > 0 {
        lemma_sound_row(m, left, y, n - 1);
        let a = row_inverted(m, left, y, n - 1);
        let x = left + n - 1;
        lemma_sound_run(
            a,
            encode_utf8((move_text(x, y) + "\u{1b}[7m"@).push(a.grid.cell(x, y).ch) + "\u{1b}[0m"@),
        );
    }
}

proof fn lemma_sound_box(m: StampModel, left: int, top: int, width: int, n: int)
    requires
        sound(m),
    ensures
        sound(box_inverted(m, left, top, width, n)),
        box_inverted(m, left, top, width, n).grid.w == m.grid.w,
        box_inverted(m, left, top, width, n).grid.h == m.grid.h,
    decreases n,
{
    if n > 0 {
        lemma_sound_box(m, left, top, width, n - 1);
        lemma_sound_row(box_inverted(m, left, top, width, n - 1), left, top + n - 1, width);
    }
}

/// Every cell of a frame can be written, and the frame has the size of the screen.
pub proof fn lemma_frame_cells(f: FrameModel)
    requires
        f.w >= 1,
        f.h >= 1,
    ensures
        frame_grid(f).wf(),
        frame_grid(f).w == f.w,
        frame_grid(f).h == f.h,
        forall|x: int, y: int|
            0 <= y < f.h && 0 <= x < f.w ==> {
                let c = #[trigger] frame_grid(f).rows[y][x];
                showable(c.ch) && c.style.attrs.0 < 256
            },
{
    let a = StampModel::fresh(GridModel::fresh(f.w as int, f.h as int));
    assert(sound(a));
    lemma_sound_run(a, encode_utf8(frame_text(f)));
    let b = a.run(encode_utf8(frame_text(f)));
    match f.selection {
        Some(s) => {
            let (top, bottom, left, right) = s.span();
            let last_y = if bottom < f.h - 1 {
                bottom as int
            } else {
                f.h - 1
            };
            let last_x = if right < f.w - 1 {
                right as int
            } else {
                f.w - 1
            };
            lemma_sound_box(b, left as int, top as int, last_x - left + 1, last_y - top + 1);
        },
        None => {},
    }
    let c = selection_drawn(b, f);
    lemma_sound_run(c, encode_utf8(f.pointer.drawn(Seq::empty(), pointer_glyph(f))));
    assert forall|x: int, y: int| 0 <= y < f.h && 0 <= x < f.w implies {
        let c = #[trigger] frame_grid(f).rows[y][x];
        showable(c.ch) && c.style.attrs.0 < 256
    } by {
        assert(sound_cell(frame_grid(f).rows[y][x]));
    }
}

proof fn lemma_cursor_text(m: StampModel, on: bool)
    requires
        ready(m),
    ensures
        ({
            let t = if on {
                "\u{1b}[?25h"@
            } else {
                "\u{1b}[?25l"@
            };
            m.run(encode_utf8(t)).grid == m.grid
        }),
{
    let t = if on {
        "\u{1b}[?25h"@
    } else {
        "\u{1b}[?25l"@
    };
    let last: u8 = if on {
        0x68
    } else {
        0x6c
    };
    reveal_strlit("\u{1b}[?25h");
    reveal_strlit("\u{1b}[?25l");
    assert(is_ascii_chars(t));
    is_ascii_chars_encode_utf8(t);
    let a = seq![0x1bu8, 0x5bu8, 0x3fu8];
    let b = seq![0x32u8, 0x35u8, last];
    assert(encode_utf8(t) =~= a + b);
    lemma_stamp_chunks(m, a, b);
    lemma_run_three(m, 0x1b, 0x5b, 0x3f);
    lemma_run_three(m.run(a), 0x32, 0x35, last);
}

/// What `render` writes out for a frame shows that frame: on a screen that shows
/// the grid of the frame before or, where the screen is cleared, where that grid is
/// blank.
pub proof fn lemma_frame_shown(m: StampModel, f: FrameModel, prev: GridModel)
    requires
        ready(m),
        drawable(f),
        if f.full_redraw || prev.w != f.w || prev.h != f.h {
            &&& m.grid.w == f.w
            &&& m.grid.h == f.h
            &&& forall|x: int, y: int|
                frame_grid(f).inside(x, y) ==> #[trigger] prev.cell(x, y) == blank()
        } else {
            shows_frame(m.grid, prev, frame_grid(f))
        },
    ensures
        m.run(encode_utf8(rendered(Seq::empty(), f, prev))).grid == frame_grid(f),
{
    let next = frame_grid(f);
    lemma_frame_cells(f);
    assert(changes_writable(prev, next)) by {
        assert forall|y: int| 0 <= y < next.h && row_differs(prev, next, y) implies writable(
            #[trigger] next.rows[y],
        ) by {
            let row = next.rows[y];
            assert forall|x: int| 0 <= x < row.len() implies showable((#[trigger] row[x]).ch)
                && row[x].style.attrs.0 < 256 by {
                assert(row[x] == next.rows[y][x]);
            }
        }
    }
    lemma_diff_shows_next(m, prev, next, f.full_redraw);
    let t = frame_emitted(Seq::empty(), prev, next, f.full_redraw);
    let a = m.run(encode_utf8(t));
    match caret(f) {
        Some((x, y)) => {
            lemma_caret_place(f);
            let p = seq![(y + 1) as u32, (x + 1) as u32];
            lemma_move_text(x, y);
            lemma_two_params(a, p, 0x48);
            lemma_run_join(m, t + move_text(x, y), "\u{1b}[?25h"@);
            lemma_run_join(m, t, move_text(x, y));
            lemma_cursor_text(a.run(encode_utf8(move_text(x, y))), true);
        },
        None => {
            lemma_run_join(m, t, "\u{1b}[?25l"@);
            lemma_cursor_text(a, false);
        },
    }
}

proof fn lemma_caret_place(f: FrameModel)
    requires
        drawable(f),
    ensures
        caret(f) matches Some((x, y)) ==> 0 <= x < 0xffff && 0 <= y < 0xffff,
{
}

} // verus!

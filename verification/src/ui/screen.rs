//! The screen as a grid of cells: the last frame that was drawn, from which any
//! visible text can be selected, and the lexer that stamps drawn bytes into it.
use vstd::prelude::*;
use vstd::string::*;
use crate::num::{max16, max_len, min16, min_len};
use crate::terminal_emulator::{
    blank, component, is_continuation, plain_style, sgr_simple, apply_simple_sgr, Cell, Color, Style,
};
use crate::text::{from_scalar, push_chars, trim_blanks};

verus! {

/// A box on the screen between two corners, each a row and a column counted
/// from 0.
#[derive(Clone, Copy, Debug, PartialEq, Eq)]
pub struct BoxSelect {
    pub anchor: (usize, usize),
    pub extent: (usize, usize),
}

impl BoxSelect {
    /// Top, bottom, left and right of the box.
    pub open spec fn span(self) -> (usize, usize, usize, usize) {
        (
            min_len(self.anchor.0, self.extent.0),
            max_len(self.anchor.0, self.extent.0),
            min_len(self.anchor.1, self.extent.1),
            max_len(self.anchor.1, self.extent.1),
        )
    }

    /// Top, bottom, left and right of the box.
    pub fn bounds(&self) -> (r: (usize, usize, usize, usize))
        ensures
            r == self.span(),
            r.0 <= r.1,
            r.2 <= r.3,
    {
        let (ar, ac) = self.anchor;
        let (er, ec) = self.extent;
        let (top, bottom) = if ar <= er {
            (ar, er)
        } else {
            (er, ar)
        };
        let (left, right) = if ac <= ec {
            (ac, ec)
        } else {
            (ec, ac)
        };
        (top, bottom, left, right)
    }
}

/// A box is the same from whichever corner it was drawn.
pub proof fn lemma_box_corners(a: (usize, usize), b: (usize, usize))
    ensures
        (BoxSelect { anchor: a, extent: b }).span() == (BoxSelect { anchor: b, extent: a }).span(),
{
}

// ── The grid ─────────────────────────────────────────────────────────────────

/// The cells of a screen, row after row.
#[verifier::ext_equal]
pub struct GridModel {
    pub w: int,
    pub h: int,
    pub rows: Seq<Seq<Cell>>,
}

impl GridModel {
    /// The grid is at least one cell in size, and every row is as wide as it.
    pub open spec fn wf(self) -> bool {
        &&& 1 <= self.w <= 0xffff
        &&& 1 <= self.h <= 0xffff
        &&& self.rows.len() == self.h
        &&& forall|y: int| 0 <= y < self.h ==> (#[trigger] self.rows[y]).len() == self.w
    }

    /// A blank grid.
    pub open spec fn fresh(w: int, h: int) -> GridModel {
        GridModel {
            w,
            h,
            rows: Seq::new(h as nat, |y: int| Seq::new(w as nat, |x: int| blank())),
        }
    }

    pub open spec fn inside(self, x: int, y: int) -> bool {
        0 <= x < self.w && 0 <= y < self.h
    }

    /// The cell in column `x` and row `y`; outside the grid all is blank.
    pub open spec fn cell(self, x: int, y: int) -> Cell {
        if self.inside(x, y) {
            self.rows[y][x]
        } else {
            blank()
        }
    }

    /// The grid with one cell set; outside it nothing happens.
    pub open spec fn with(self, x: int, y: int, c: Cell) -> GridModel {
        if self.inside(x, y) {
            GridModel { rows: self.rows.update(y, self.rows[y].update(x, c)), ..self }
        } else {
            self
        }
    }

    /// The text of row `y` from column `left` to column `right`, without the
    /// blanks at its end.
    pub open spec fn row_text(self, left: int, right: int, y: int) -> Seq<char> {
        let last = if right < self.w - 1 {
            right
        } else {
            self.w - 1
        };
        let n: int = if left <= last {
            last - left + 1
        } else {
            0
        };
        trim_blanks(Seq::new(n as nat, |k: int| self.cell(left + k, y).ch))
    }

    /// The rows `top..=bottom` of a box, a line each.
    pub open spec fn box_text(self, left: int, top: int, right: int, bottom: int) -> Seq<char>
        decreases bottom - top,
    {
        if bottom < top {
            Seq::empty()
        } else if bottom == top {
            self.row_text(left, right, top)
        } else {
            self.box_text(left, top, right, bottom - 1).push('\n') + self.row_text(
                left,
                right,
                bottom,
            )
        }
    }
}

pub struct ScreenGrid {
    w: usize,
    h: usize,
    cells: Vec<Vec<Cell>>,
}

impl View for ScreenGrid {
    type V = GridModel;

    closed spec fn view(&self) -> GridModel {
        GridModel {
            w: self.w as int,
            h: self.h as int,
            rows: Seq::new(self.cells@.len(), |y: int| self.cells@[y]@),
        }
    }
}

fn blank_rows(w: usize, h: usize) -> (rows: Vec<Vec<Cell>>)
    ensures
        Seq::new(rows@.len(), |y: int| rows@[y]@) == GridModel::fresh(w as int, h as int).rows,
{
    let ghost row = Seq::new(w as nat, |x: int| blank());
    let mut rows: Vec<Vec<Cell>> = Vec::new();
    while rows.len() < h
        invariant
            rows@.len() <= h,
            row == Seq::new(w as nat, |x: int| blank()),
            forall|y: int| 0 <= y < rows@.len() ==> (#[trigger] rows@[y])@ == row,
        decreases h - rows@.len(),
    {
        let mut r: Vec<Cell> = Vec::new();
        while r.len() < w
            invariant
                r@.len() <= w,
                forall|x: int| 0 <= x < r@.len() ==> r@[x] == blank(),
            decreases w - r@.len(),
        {
            r.push(Cell::default());
        }
        assert(r@ =~= row);
        rows.push(r);
    }
    assert(Seq::new(rows@.len(), |y: int| rows@[y]@) =~= GridModel::fresh(
        w as int,
        h as int,
    ).rows);
    rows
}

impl ScreenGrid {
    pub open spec fn wf(&self) -> bool {
        self@.wf()
    }

    /// A blank grid of at least one cell.
    pub fn new(w: u16, h: u16) -> (g: ScreenGrid)
        ensures
            g@ == GridModel::fresh(max16(w, 1) as int, max16(h, 1) as int),
            g.wf(),
    {
        let w: usize = max16(w, 1) as usize;
        let h: usize = max16(h, 1) as usize;
        ScreenGrid { w, h, cells: blank_rows(w, h) }
    }

    /// Takes over a size; the grid is blank afterwards.
    pub fn resize(&mut self, w: u16, h: u16)
        ensures
            final(self)@ == GridModel::fresh(max16(w, 1) as int, max16(h, 1) as int),
            final(self).wf(),
    {
        self.w = max16(w, 1) as usize;
        self.h = max16(h, 1) as usize;
        self.cells = blank_rows(self.w, self.h);
    }

    /// Blanks every cell.
    pub fn clear(&mut self)
        requires
            old(self).wf(),
        ensures
            final(self)@ == GridModel::fresh(old(self)@.w, old(self)@.h),
            final(self).wf(),
    {
        self.cells = blank_rows(self.w, self.h);
    }

    fn set(&mut self, x: usize, y: usize, cell: Cell)
        requires
            old(self).wf(),
        ensures
            final(self)@ == old(self)@.with(x as int, y as int, cell),
            final(self).wf(),
    {
        if x < self.w && y < self.h {
            assert(old(self)@.rows[y as int].len() == old(self)@.w);
            self.cells[y][x] = cell;
            assert(self@.rows =~= old(self)@.with(x as int, y as int, cell).rows);
        }
    }

    /// Writes a character in the plain style.
    pub fn set_cell(&mut self, x: u16, y: u16, ch: char)
        requires
            old(self).wf(),
        ensures
            final(self)@ == old(self)@.with(x as int, y as int, Cell { ch, style: plain_style() }),
            final(self).wf(),
    {
        self.set(x as usize, y as usize, Cell { ch, style: Style::default() });
    }

    pub fn put(&mut self, x: u16, y: u16, cell: Cell)
        requires
            old(self).wf(),
        ensures
            final(self)@ == old(self)@.with(x as int, y as int, cell),
            final(self).wf(),
    {
        self.set(x as usize, y as usize, cell);
    }

    pub fn width(&self) -> (n: usize)
        ensures
            n == self@.w,
    {
        self.w
    }

    pub fn height(&self) -> (n: usize)
        ensures
            n == self@.h,
    {
        self.h
    }

    /// The cell in column `x` and row `y`, blank outside the grid.
    pub fn cell_at(&self, x: usize, y: usize) -> (c: Cell)
        requires
            self.wf(),
        ensures
            c == self@.cell(x as int, y as int),
    {
        if x < self.w && y < self.h {
            assert(self@.rows[y as int].len() == self@.w);
            self.cells[y][x]
        } else {
            Cell::default()
        }
    }

    pub fn char_at(&self, x: usize, y: usize) -> (ch: char)
        requires
            self.wf(),
        ensures
            ch == self@.cell(x as int, y as int).ch,
    {
        self.cell_at(x, y).ch
    }

    pub fn style_at(&self, x: usize, y: usize) -> (s: Style)
        requires
            self.wf(),
        ensures
            s == self@.cell(x as int, y as int).style,
    {
        self.cell_at(x, y).style
    }

    fn row_chars(&self, left: usize, right: usize, y: usize) -> (v: Vec<char>)
        requires
            self.wf(),
        ensures
            v@ == self@.row_text(left as int, right as int, y as int),
    {
        let last: usize = min_len(right, self.w - 1);
        let n: usize = if left <= last {
            last - left + 1
        } else {
            0
        };
        let ghost whole = Seq::new(n as nat, |k: int| self@.cell(left + k, y as int).ch);
        let mut v: Vec<char> = Vec::new();
        while v.len() < n
            invariant
                self.wf(),
                v@.len() <= n,
                left + n <= self.w || n == 0,
                whole == Seq::new(n as nat, |k: int| self@.cell(left + k, y as int).ch),
                forall|k: int| 0 <= k < v@.len() ==> v@[k] == whole[k],
            decreases n - v@.len(),
        {
            v.push(self.char_at(left + v.len(), y));
        }
        assert(v@ =~= whole);
        while v.len() > 0 && v[v.len() - 1] == ' '
            invariant
                trim_blanks(v@) == trim_blanks(whole),
            decreases v@.len(),
        {
            let _ = v.pop();
        }
        v
    }

    /// The text of a box of columns `left..=right` and rows `top..=bottom`: a line
    /// for each row, without the blanks at its end.
    pub fn box_text(&self, left: usize, top: usize, right: usize, bottom: usize) -> (s: String)
        requires
            self.wf(),
        ensures
            s@ == self@.box_text(left as int, top as int, right as int, bottom as int),
    {
        let mut out = String::new();
        if bottom < top {
            return out;
        }
        let first = self.row_chars(left, right, top);
        push_chars(&mut out, &first);
        assert(out@ =~= self@.row_text(left as int, right as int, top as int));
        let mut y: usize = top;
        while y < bottom
            invariant
                self.wf(),
                top <= y <= bottom,
                out@ == self@.box_text(left as int, top as int, right as int, y as int),
            decreases bottom - y,
        {
            y = y + 1;
            let row = self.row_chars(left, right, y);
            out.push('\n');
            push_chars(&mut out, &row);
            assert(out@ =~= self@.box_text(left as int, top as int, right as int, y as int));
        }
        out
    }
}

// ── The lexer ────────────────────────────────────────────────────────────────

#[derive(PartialEq, Eq, Clone, Copy, Debug, Structural)]
pub enum Parse {
    Text,
    Esc,
    Csi,
    Osc,
}

/// The state of the lexer and the grid that it stamps into.
#[verifier::ext_equal]
pub struct StampModel {
    pub grid: GridModel,
    pub x: u16,
    pub y: u16,
    pub parse: Parse,
    pub csi: Seq<u8>,
    pub utf: Seq<u8>,
    pub osc_esc: bool,
    pub style: Style,
}

/// How many bytes are read for a character that starts with `b`.
pub open spec fn stamp_need(b: u8) -> int {
    if b <= 0x7f {
        1
    } else if 0xc2 <= b <= 0xdf {
        2
    } else if 0xe0 <= b <= 0xef {
        3
    } else {
        4
    }
}

/// The first character of `u` read as UTF-8, U+FFFD where it is none.
pub open spec fn lossy_first(u: Seq<u8>) -> char {
    if u[0] <= 0x7f {
        u[0] as char
    } else if 0xc2 <= u[0] <= 0xdf && is_continuation(u[1]) {
        (u[0] % 32 * 64 + u[1] % 64) as char
    } else if 0xe0 <= u[0] <= 0xef && is_continuation(u[1]) && is_continuation(u[2]) && (u[0] == 0xe0
        ==> u[1] >= 0xa0) && (u[0] == 0xed ==> u[1] < 0xa0) {
        (u[0] % 16 * 4096 + u[1] % 64 * 64 + u[2] % 64) as char
    } else if 0xf0 <= u[0] <= 0xf4 && is_continuation(u[1]) && is_continuation(u[2])
        && is_continuation(u[3]) && (u[0] == 0xf0 ==> u[1] >= 0x90) && (u[0] == 0xf4 ==> u[1]
        < 0x90) {
        (u[0] % 8 * 262144 + u[1] % 64 * 4096 + u[2] % 64 * 64 + u[3] % 64) as char
    } else {
        '\u{fffd}'
    }
}

/// The parts of `s` between its `;`.
pub open spec fn split_params(s: Seq<u8>) -> Seq<Seq<u8>>
    decreases s.len(),
{
    if s.len() == 0 {
        seq![Seq::empty()]
    } else {
        let front = split_params(s.drop_last());
        if s.last() == 0x3b {
            front.push(Seq::empty())
        } else {
            front.update(front.len() - 1, front.last().push(s.last()))
        }
    }
}

/// The number that a row of digits spells, where it fits sixteen bits.
pub open spec fn digits_value(s: Seq<u8>) -> Option<u16>
    decreases s.len(),
{
    if s.len() == 0 {
        Some(0)
    } else {
        match digits_value(s.drop_last()) {
            Some(v) => if 0x30 <= s.last() <= 0x39 && v * 10 + (s.last() - 0x30) <= 0xffff {
                Some((v * 10 + (s.last() - 0x30)) as u16)
            } else {
                None
            },
            None => None,
        }
    }
}

/// The number that `s` spells: digits, with a `+` in front where there is one.
pub open spec fn number_of(s: Seq<u8>) -> Option<u16> {
    if s.len() == 0 || (s.len() == 1 && s[0] == 0x2b) {
        None
    } else if s[0] == 0x2b {
        digits_value(s.drop_first())
    } else {
        digits_value(s)
    }
}

/// The numbers of a parameter list.
pub open spec fn numbers_of(s: Seq<u8>) -> Seq<Option<u16>> {
    split_params(s).map_values(|p: Seq<u8>| number_of(p))
}

/// Entry `i` of a parameter list, or `default` where it is missing or no number.
pub open spec fn number_or(p: Seq<Option<u16>>, i: int, default: u16) -> u16 {
    if i < p.len() {
        match p[i] {
            Some(v) => v,
            None => default,
        }
    } else {
        default
    }
}

/// The color that an extended SGR parameter at `i` selects, where all of it is
/// there.
pub open spec fn listed_color(p: Seq<Option<u16>>, i: int) -> Option<Color> {
    if i + 2 < p.len() && p[i + 1] == Some(5u16) {
        match p[i + 2] {
            Some(n) => Some(Color::Indexed((n % 256) as u8)),
            None => None,
        }
    } else if i + 4 < p.len() && p[i + 1] == Some(2u16) {
        match (p[i + 2], p[i + 3], p[i + 4]) {
            (Some(r), Some(g), Some(b)) => Some(
                Color::Rgb(component(r as u32), component(g as u32), component(b as u32)),
            ),
            _ => None,
        }
    } else {
        None
    }
}

/// How many entries the SGR parameter at `i` takes up.
pub open spec fn listed_width(p: Seq<Option<u16>>, i: int) -> int {
    let whole: int = if p[i] == Some(38u16) || p[i] == Some(48u16) {
        if i + 1 < p.len() && p[i + 1] == Some(5u16) {
            3
        } else if i + 1 < p.len() && p[i + 1] == Some(2u16) {
            5
        } else {
            2
        }
    } else {
        1
    };
    if i + whole <= p.len() {
        whole
    } else {
        p.len() - i
    }
}

/// The style after the SGR parameter at `i`; what is no number counts as 0.
pub open spec fn styled_at(s: Style, p: Seq<Option<u16>>, i: int) -> Style {
    if p[i] == Some(38u16) {
        match listed_color(p, i) {
            Some(c) => Style { fg: c, ..s },
            None => s,
        }
    } else if p[i] == Some(48u16) {
        match listed_color(p, i) {
            Some(c) => Style { bg: c, ..s },
            None => s,
        }
    } else {
        sgr_simple(s, number_or(p, i, 0) as u32)
    }
}

/// The style after the SGR parameters from `i` on.
pub open spec fn styled_from(s: Style, p: Seq<Option<u16>>, i: int) -> Style
    decreases p.len() - i,
{
    if i < 0 || i >= p.len() {
        s
    } else {
        styled_from(styled_at(s, p, i), p, i + listed_width(p, i))
    }
}

impl StampModel {
    pub open spec fn wf(self) -> bool {
        &&& self.grid.wf()
        &&& self.x < self.grid.w
        &&& self.utf.len() == 0 || self.utf.len() < stamp_need(self.utf[0])
    }

    pub open spec fn fresh(grid: GridModel) -> StampModel {
        StampModel {
            grid,
            x: 0,
            y: 0,
            parse: Parse::Text,
            csi: Seq::empty(),
            utf: Seq::empty(),
            osc_esc: false,
            style: plain_style(),
        }
    }

    /// `ch` stamped at the position, which moves on in the row.
    pub open spec fn placed(self, ch: char) -> StampModel {
        StampModel {
            grid: self.grid.with(self.x as int, self.y as int, Cell { ch, style: self.style }),
            x: if self.x + 1 < self.grid.w {
                (self.x + 1) as u16
            } else {
                self.x
            },
            ..self
        }
    }

    pub open spec fn fed(self, b: u8) -> StampModel {
        let u = self.utf.push(b);
        if u.len() < stamp_need(u[0]) {
            StampModel { utf: u, ..self }
        } else {
            StampModel { utf: Seq::empty(), ..self.placed(lossy_first(u)) }
        }
    }

    /// A complete CSI sequence with the last byte `b`.
    pub open spec fn csi_done(self, b: u8) -> StampModel {
        let p = numbers_of(self.csi);
        if b == 0x48 || b == 0x66 {
            StampModel {
                x: min16(number_or(p, 1, 1).saturating_sub(1), (self.grid.w - 1) as u16),
                y: min16(number_or(p, 0, 1).saturating_sub(1), (self.grid.h - 1) as u16),
                ..self
            }
        } else if b == 0x4a && number_of(self.csi) == Some(2u16) {
            StampModel {
                grid: GridModel::fresh(self.grid.w, self.grid.h),
                style: plain_style(),
                x: 0,
                y: 0,
                ..self
            }
        } else if b == 0x6d {
            StampModel { style: styled_from(self.style, p, 0), ..self }
        } else {
            self
        }
    }

    /// One byte of what is drawn.
    pub open spec fn step(self, b: u8) -> StampModel {
        match self.parse {
            Parse::Text => {
                if b == 0x1b {
                    StampModel { parse: Parse::Esc, ..self }
                } else if b == 0x0d {
                    StampModel { x: 0, ..self }
                } else if b == 0x0a {
                    StampModel { y: self.y.saturating_add(1), ..self }
                } else if b < 0x20 || b == 0x7f {
                    self
                } else {
                    self.fed(b)
                }
            },
            Parse::Esc => {
                if b == 0x5b {
                    StampModel { parse: Parse::Csi, csi: Seq::empty(), ..self }
                } else if b == 0x5d {
                    StampModel { parse: Parse::Osc, osc_esc: false, ..self }
                } else {
                    StampModel { parse: Parse::Text, ..self }
                }
            },
            Parse::Csi => {
                if 0x40 <= b <= 0x7e {
                    StampModel { parse: Parse::Text, ..self.csi_done(b) }
                } else {
                    StampModel { csi: self.csi.push(b), ..self }
                }
            },
            Parse::Osc => {
                if b == 0x07 || (b == 0x5c && self.osc_esc) {
                    StampModel { parse: Parse::Text, ..self }
                } else {
                    StampModel { osc_esc: b == 0x1b, ..self }
                }
            },
        }
    }

    pub open spec fn run(self, bytes: Seq<u8>) -> StampModel
        decreases bytes.len(),
    {
        if bytes.len() == 0 {
            self
        } else {
            self.run(bytes.drop_last()).step(bytes.last())
        }
    }
}

fn digits_number(s: &[u8], from: usize) -> (r: Option<u16>)
    requires
        from <= s@.len(),
    ensures
        r == digits_value(s@.skip(from as int)),
{
    let mut v: u16 = 0;
    let mut i: usize = from;
    let ghost d = s@.skip(from as int);
    assert(d.take(0) =~= Seq::empty());
    while i < s.len()
        invariant
            from <= i <= s@.len(),
            d == s@.skip(from as int),
            digits_value(d.take(i - from)) == Some(v),
        decreases s@.len() - i,
    {
        let b: u8 = s[i];
        let ghost next = d.take(i - from + 1);
        proof {
            assert(next.drop_last() =~= d.take(i - from));
            assert(next.last() == b);
        }
        if b < 0x30 || b > 0x39 || v as u32 * 10 + (b - 0x30) as u32 > 0xffff {
            proof {
                lemma_digits_prefix(d, i - from + 1);
            }
            return None;
        }
        v = v * 10 + (b - 0x30) as u16;
        i = i + 1;
    }
    assert(d.take(i - from) =~= d);
    Some(v)
}

/// What begins with no number is no number.
proof fn lemma_digits_prefix(s: Seq<u8>, n: int)
    requires
        0 <= n <= s.len(),
        digits_value(s.take(n)) is None,
    ensures
        digits_value(s) is None,
    decreases s.len(),
{
    if n == s.len() {
        assert(s.take(n) =~= s);
    } else {
        assert(s.drop_last().take(n) =~= s.take(n));
        lemma_digits_prefix(s.drop_last(), n);
    }
}

/// The number that `s` spells.
pub fn parse_number(s: &[u8]) -> (r: Option<u16>)
    ensures
        r == number_of(s@),
{
    if s.len() == 0 || (s.len() == 1 && s[0] == 0x2b) {
        None
    } else if s[0] == 0x2b {
        assert(s@.drop_first() =~= s@.skip(1));
        digits_number(s, 1)
    } else {
        assert(s@.skip(0) =~= s@);
        digits_number(s, 0)
    }
}

/// The numbers of a parameter list.
fn parse_numbers(s: &[u8]) -> (r: Vec<Option<u16>>)
    ensures
        r@ == numbers_of(s@),
        r@.len() >= 1,
{
    let mut done: Vec<Option<u16>> = Vec::new();
    let mut part: Vec<u8> = Vec::new();
    let mut i: usize = 0;
    assert(s@.take(0) =~= Seq::empty());
    while i < s.len()
        invariant
            i <= s@.len(),
            split_params(s@.take(i as int)).len() == done@.len() + 1,
            split_params(s@.take(i as int)).last() == part@,
            forall|k: int|
                0 <= k < done@.len() ==> done@[k] == number_of(
                    #[trigger] split_params(s@.take(i as int))[k],
                ),
        decreases s@.len() - i,
    {
        let ghost before = split_params(s@.take(i as int));
        let ghost next = s@.take(i + 1);
        proof {
            assert(next.drop_last() =~= s@.take(i as int));
            assert(next.last() == s@[i as int]);
        }
        if s[i] == 0x3b {
            done.push(parse_number(&part));
            part = Vec::new();
        } else {
            part.push(s[i]);
        }
        i = i + 1;
    }
    assert(s@.take(i as int) =~= s@);
    done.push(parse_number(&part));
    assert(done@ =~= numbers_of(s@));
    done
}

fn number_at(p: &Vec<Option<u16>>, i: usize, default: u16) -> (v: u16)
    ensures
        v == number_or(p@, i as int, default),
{
    if i < p.len() {
        match p[i] {
            Some(v) => v,
            None => default,
        }
    } else {
        default
    }
}

fn clamp_component(v: u16) -> (c: u8)
    ensures
        c == component(v as u32),
{
    if v > 255 {
        255
    } else {
        v as u8
    }
}

fn color_at(p: &Vec<Option<u16>>, i: usize) -> (c: Option<Color>)
    requires
        i < p@.len(),
    ensures
        c == listed_color(p@, i as int),
{
    let left: usize = p.len() - i;
    if left > 2 && p[i + 1] == Some(5u16) {
        match p[i + 2] {
            Some(n) => Some(Color::Indexed((n % 256) as u8)),
            None => None,
        }
    } else if left > 4 && p[i + 1] == Some(2u16) {
        match (p[i + 2], p[i + 3], p[i + 4]) {
            (Some(r), Some(g), Some(b)) => Some(
                Color::Rgb(clamp_component(r), clamp_component(g), clamp_component(b)),
            ),
            _ => None,
        }
    } else {
        None
    }
}

/// Applies the parameters of an SGR sequence, such as `38;5;196;1`, to a style.
pub fn apply_sgr(style: &mut Style, params: &[u8])
    ensures
        *final(style) == styled_from(*old(style), numbers_of(params@), 0),
{
    let p = parse_numbers(params);
    let mut i: usize = 0;
    while i < p.len()
        invariant
            styled_from(*old(style), numbers_of(params@), 0) == styled_from(*style, p@, i as int),
        decreases p@.len() - i,
    {
        let left: usize = p.len() - i;
        let fg = p[i] == Some(38u16);
        if fg || p[i] == Some(48u16) {
            match color_at(&p, i) {
                Some(c) => {
                    if fg {
                        style.fg = c;
                    } else {
                        style.bg = c;
                    }
                },
                None => {},
            }
            let width: usize = if left > 1 && p[i + 1] == Some(5u16) {
                3
            } else if left > 1 && p[i + 1] == Some(2u16) {
                5
            } else {
                2
            };
            i = i + min_len(width, left);
        } else {
            apply_simple_sgr(style, number_at(&p, i, 0) as u32);
            i = i + 1;
        }
    }
}

fn first_char(u: &Vec<u8>) -> (ch: char)
    requires
        u@.len() >= 1,
        u@.len() >= stamp_need(u@[0]),
    ensures
        ch == lossy_first(u@),
{
    let b: u8 = u[0];
    let mut ok = true;
    let n: usize = if b <= 0x7f {
        1
    } else if 0xc2 <= b && b <= 0xdf {
        2
    } else if 0xe0 <= b && b <= 0xef {
        3
    } else {
        4
    };
    if n == 1 {
        return b as char;
    }
    if n == 2 {
        if 0x80 <= u[1] && u[1] < 0xc0 {
            return scalar((b % 32) as u32 * 64 + (u[1] % 64) as u32);
        }
    } else if n == 3 {
        if 0x80 <= u[1] && u[1] < 0xc0 && 0x80 <= u[2] && u[2] < 0xc0 && (b != 0xe0 || u[1]
            >= 0xa0) && (b != 0xed || u[1] < 0xa0) {
            return scalar(
                (b % 16) as u32 * 4096 + (u[1] % 64) as u32 * 64 + (u[2] % 64) as u32,
            );
        }
    } else if 0xf0 <= b && b <= 0xf4 {
        if 0x80 <= u[1] && u[1] < 0xc0 && 0x80 <= u[2] && u[2] < 0xc0 && 0x80 <= u[3] && u[3]
            < 0xc0 && (b != 0xf0 || u[1] >= 0x90) && (b != 0xf4 || u[1] < 0x90) {
            return scalar(
                (b % 8) as u32 * 262144 + (u[1] % 64) as u32 * 4096 + (u[2] % 64) as u32 * 64 + (
                u[3] % 64) as u32,
            );
        }
    }
    '\u{fffd}'
}

fn scalar(i: u32) -> (ch: char)
    requires
        from_scalar(i) is Some,
    ensures
        Some(ch) == from_scalar(i),
{
    match char::from_u32(i) {
        Some(c) => c,
        None => ' ',
    }
}

/// Reads drawn bytes and stamps the printable text into a grid. Understands
/// cursor positions, clearing the screen, CR and LF, and SGR; skips everything
/// else.
pub struct StampWriter {
    grid: ScreenGrid,
    x: u16,
    y: u16,
    parse: Parse,
    csi: Vec<u8>,
    utf: Vec<u8>,
    osc_esc: bool,
    style: Style,
}

impl View for StampWriter {
    type V = StampModel;

    closed spec fn view(&self) -> StampModel {
        StampModel {
            grid: self.grid@,
            x: self.x,
            y: self.y,
            parse: self.parse,
            csi: self.csi@,
            utf: self.utf@,
            osc_esc: self.osc_esc,
            style: self.style,
        }
    }
}

impl StampWriter {
    pub open spec fn wf(&self) -> bool {
        self@.wf()
    }

    pub fn new(grid: ScreenGrid) -> (s: StampWriter)
        requires
            grid.wf(),
        ensures
            s@ == StampModel::fresh(grid@),
            s.wf(),
    {
        StampWriter {
            grid,
            x: 0,
            y: 0,
            parse: Parse::Text,
            csi: Vec::new(),
            utf: Vec::new(),
            osc_esc: false,
            style: Style::default(),
        }
    }

    /// The grid as stamped so far.
    pub fn grid(&self) -> (g: &ScreenGrid)
        ensures
            g@ == self@.grid,
    {
        &self.grid
    }

    /// Hands the grid back.
    pub fn into_grid(self) -> (g: ScreenGrid)
        ensures
            g@ == self@.grid,
    {
        self.grid
    }

    fn place(&mut self, ch: char)
        requires
            old(self).wf(),
        ensures
            final(self)@ == old(self)@.placed(ch),
            final(self)@.grid.wf(),
            final(self)@.x < final(self)@.grid.w,
    {
        let cell = Cell { ch, style: self.style };
        self.grid.set(self.x as usize, self.y as usize, cell);
        if (self.x as usize) + 1 < self.grid.width() {
            self.x = self.x + 1;
        }
    }

    fn feed_utf(&mut self, b: u8)
        requires
            old(self).wf(),
        ensures
            final(self)@ == old(self)@.fed(b),
            final(self).wf(),
    {
        let ghost u = self@.utf.push(b);
        self.utf.push(b);
        let first: u8 = self.utf[0];
        let need: usize = if first <= 0x7f {
            1
        } else if 0xc2 <= first && first <= 0xdf {
            2
        } else if 0xe0 <= first && first <= 0xef {
            3
        } else {
            4
        };
        if self.utf.len() < need {
            return ;
        }
        let ch = first_char(&self.utf);
        self.utf.clear();
        let ghost rest = self@;
        self.place(ch);
        assert(self@ =~= old(self)@.fed(b));
    }

    fn handle_csi(&mut self, b: u8)
        requires
            old(self).wf(),
        ensures
            final(self)@ == old(self)@.csi_done(b),
            final(self).wf(),
    {
        match b {
            0x48 | 0x66 => {
                let p = parse_numbers(&self.csi);
                self.x = min16(
                    number_at(&p, 1, 1).saturating_sub(1),
                    (self.grid.width() - 1) as u16,
                );
                self.y = min16(
                    number_at(&p, 0, 1).saturating_sub(1),
                    (self.grid.height() - 1) as u16,
                );
            },
            0x4a => {
                if parse_number(&self.csi) == Some(2u16) {
                    self.grid.clear();
                    self.style.reset();
                    self.x = 0;
                    self.y = 0;
                }
            },
            0x6d => apply_sgr(&mut self.style, &self.csi),
            _ => {},
        }
        assert(self@ =~= old(self)@.csi_done(b));
    }

    /// Stamps drawn bytes.
    pub fn stamp(&mut self, bytes: &[u8])
        requires
            old(self).wf(),
        ensures
            final(self)@ == old(self)@.run(bytes@),
            final(self).wf(),
    {
        let mut i: usize = 0;
        assert(bytes@.take(0) =~= Seq::empty());
        while i < bytes.len()
            invariant
                i <= bytes@.len(),
                self.wf(),
                self@ == old(self)@.run(bytes@.take(i as int)),
            decreases bytes@.len() - i,
        {
            let b: u8 = bytes[i];
            let ghost before = self@;
            match self.parse {
                Parse::Text => match b {
                    0x1b => self.parse = Parse::Esc,
                    0x0d => self.x = 0,
                    0x0a => self.y = self.y.saturating_add(1),
                    _ => {
                        if b >= 0x20 && b != 0x7f {
                            self.feed_utf(b);
                        }
                    },
                },
                Parse::Esc => match b {
                    0x5b => {
                        self.parse = Parse::Csi;
                        self.csi = Vec::new();
                    },
                    0x5d => {
                        self.parse = Parse::Osc;
                        self.osc_esc = false;
                    },
                    _ => self.parse = Parse::Text,
                },
                Parse::Csi => {
                    if 0x40 <= b && b <= 0x7e {
                        self.handle_csi(b);
                        self.parse = Parse::Text;
                    } else {
                        self.csi.push(b);
                    }
                },
                Parse::Osc => {
                    if b == 0x07 {
                        self.parse = Parse::Text;
                    } else if b == 0x1b {
                        self.osc_esc = true;
                    } else if self.osc_esc && b == 0x5c {
                        self.parse = Parse::Text;
                    } else {
                        self.osc_esc = false;
                    }
                },
            }
            proof {
                let next = bytes@.take(i + 1);
                assert(next.drop_last() =~= bytes@.take(i as int));
                assert(next.last() == b);
                assert(self@ =~= before.step(b));
            }
            i = i + 1;
        }
        assert(bytes@.take(i as int) =~= bytes@);
    }
}

} // verus!

//! The SGR sequences that are written say exactly the change of style: stamped,
//! they lead from the style before to the style after.
use vstd::prelude::*;
use vstd::utf8::{encode_utf8, is_ascii_chars, is_ascii_chars_encode_utf8};
use crate::terminal_emulator::{plain_style, sgr_simple, Attributes, Color, Style};
use crate::text::{dec, lemma_dec};
use crate::ui::ansi::{
    attr_changes, bg_codes, changes, fg_codes, params_text, sgr_codes, sgr_text, sgr_texts,
    weight_changes, weight_ends, with_code, with_flag,
};
use crate::ui::screen::{
    digits_value, listed_color, listed_width, number_of, numbers_of, split_params, styled_at,
    styled_from, Parse, StampModel,
};

verus! {

/// ASCII text as bytes.
pub open spec fn ascii(s: Seq<char>) -> Seq<u8> {
    Seq::new(s.len(), |i: int| s[i] as u8)
}

/// A list of parameters in which nothing is missing.
pub open spec fn known(p: Seq<u32>) -> Seq<Option<u16>> {
    Seq::new(p.len(), |i: int| Some(p[i] as u16))
}

pub open spec fn in_range(p: Seq<u32>) -> bool {
    p.len() > 0 && forall|i: int| 0 <= i < p.len() ==> #[trigger] p[i] <= 0xffff
}

/// The style after one SGR sequence after another.
pub open spec fn after_codes(s: Style, l: Seq<Seq<u32>>) -> Style
    decreases l.len(),
{
    if l.len() == 0 {
        s
    } else {
        styled_from(after_codes(s, l.drop_last()), known(l.last()), 0)
    }
}

// ── Numbers ──────────────────────────────────────────────────────────────────

proof fn lemma_dec_value(n: nat)
    requires
        n <= 0xffff,
    ensures
        digits_value(ascii(dec(n))) == Some(n as u16),
    decreases n,
{
    let s = ascii(dec(n));
    if n < 10 {
        assert(s.drop_last() =~= Seq::empty());
        assert(digits_value(s.drop_last()) == Some(0u16));
        assert(s.last() == 48 + n);
    } else {
        lemma_dec_value(n / 10);
        assert(s.drop_last() =~= ascii(dec(n / 10)));
        assert(s.last() == 48 + n % 10);
    }
}

pub(crate) proof fn lemma_dec_number(n: nat)
    requires
        n <= 0xffff,
    ensures
        number_of(ascii(dec(n))) == Some(n as u16),
        forall|i: int| 0 <= i < ascii(dec(n)).len() ==> 0x30 <= #[trigger] ascii(dec(n))[i] <= 0x39,
{
    lemma_dec(n);
    lemma_dec_value(n);
    let s = ascii(dec(n));
    assert forall|i: int| 0 <= i < s.len() implies 0x30 <= #[trigger] s[i] <= 0x39 by {
        assert('0' <= dec(n)[i] <= '9');
    }
    assert(0x30 <= s[0]);
}

proof fn lemma_split_last(a: Seq<u8>, b: Seq<u8>)
    requires
        forall|i: int| 0 <= i < b.len() ==> #[trigger] b[i] != 0x3b,
    ensures
        split_params(a.push(0x3b) + b) == split_params(a).push(b),
    decreases b.len(),
{
    let s = a.push(0x3b) + b;
    if b.len() == 0 {
        assert(s =~= a.push(0x3b));
        assert(s.drop_last() =~= a);
        assert(b =~= Seq::empty());
    } else {
        lemma_split_last(a, b.drop_last());
        assert(s.drop_last() =~= a.push(0x3b) + b.drop_last());
        assert(s.last() == b.last());
        assert(b.drop_last().push(b.last()) =~= b);
        assert(split_params(s) =~= split_params(a).push(b));
    }
}

proof fn lemma_split_single(b: Seq<u8>)
    requires
        forall|i: int| 0 <= i < b.len() ==> #[trigger] b[i] != 0x3b,
    ensures
        split_params(b) == seq![b],
    decreases b.len(),
{
    if b.len() == 0 {
        assert(b =~= Seq::empty());
    } else {
        lemma_split_single(b.drop_last());
        assert(b.drop_last().push(b.last()) =~= b);
        assert(split_params(b) =~= seq![b]);
    }
}

/// Parameters that are written are read back.
pub(crate) proof fn lemma_params(p: Seq<u32>)
    requires
        in_range(p),
    ensures
        numbers_of(ascii(params_text(p))) == known(p),
        forall|i: int|
            0 <= i < params_text(p).len() ==> '0' <= #[trigger] params_text(p)[i] <= ';',
    decreases p.len(),
{
    let d = dec(p.last() as nat);
    lemma_dec(p.last() as nat);
    lemma_dec_number(p.last() as nat);
    if p.len() == 1 {
        lemma_split_single(ascii(d));
        assert(numbers_of(ascii(params_text(p))) =~= known(p));
    } else {
        let front = p.drop_last();
        lemma_params(front);
        lemma_split_last(ascii(params_text(front)), ascii(d));
        assert(ascii(params_text(p)) =~= ascii(params_text(front)).push(0x3b) + ascii(d));
        let parts = split_params(ascii(params_text(front)));
        assert(numbers_of(ascii(params_text(p))) =~= numbers_of(ascii(params_text(front))).push(
            number_of(ascii(d)),
        ));
        assert(known(p) =~= known(front).push(Some(p.last() as u16)));
        assert forall|i: int| 0 <= i < params_text(p).len() implies '0'
            <= #[trigger] params_text(p)[i] <= ';' by {
            let k = params_text(front).len();
            if i < k {
                assert(params_text(p)[i] == params_text(front)[i]);
            } else if i > k {
                assert(params_text(p)[i] == d[i - k - 1]);
            }
        }
    }
}

// ── Stamping ─────────────────────────────────────────────────────────────────

/// Stamping two chunks one after the other is stamping them joined.
pub proof fn lemma_stamp_chunks(m: StampModel, a: Seq<u8>, b: Seq<u8>)
    ensures
        m.run(a + b) == m.run(a).run(b),
    decreases b.len(),
{
    if b.len() == 0 {
        assert(a + b =~= a);
    } else {
        assert((a + b).drop_last() =~= a + b.drop_last());
        lemma_stamp_chunks(m, a, b.drop_last());
    }
}

pub(crate) proof fn lemma_csi_bytes(m: StampModel, s: Seq<u8>)
    requires
        m.parse is Csi,
        forall|i: int| 0 <= i < s.len() ==> 0x30 <= #[trigger] s[i] <= 0x3b,
    ensures
        m.run(s) == (StampModel { csi: m.csi + s, ..m }),
    decreases s.len(),
{
    if s.len() == 0 {
        assert(m.csi + s =~= m.csi);
    } else {
        lemma_csi_bytes(m, s.drop_last());
        assert(m.csi + s =~= (m.csi + s.drop_last()).push(s.last()));
    }
}

proof fn lemma_stamp_one(m: StampModel, p: Seq<u32>)
    requires
        m.parse is Text,
        in_range(p),
    ensures
        m.run(ascii(sgr_text(p))) == (StampModel {
            csi: ascii(params_text(p)),
            style: styled_from(m.style, known(p), 0),
            ..m
        }),
{
    lemma_params(p);
    let digits = ascii(params_text(p));
    let head = seq![0x1bu8, 0x5bu8];
    let tail = seq![0x6du8];
    assert(ascii(sgr_text(p)) =~= head + digits + tail);
    lemma_stamp_chunks(m, head + digits, tail);
    lemma_stamp_chunks(m, head, digits);
    reveal_with_fuel(StampModel::run, 3);
    assert(head.drop_last() =~= seq![0x1bu8]);
    assert(seq![0x1bu8].drop_last() =~= Seq::empty());
    assert(tail.drop_last() =~= Seq::empty());
    let opened = StampModel { parse: Parse::Csi, csi: Seq::empty(), ..m };
    assert(m.run(head) =~= opened);
    assert forall|i: int| 0 <= i < digits.len() implies 0x30 <= #[trigger] digits[i] <= 0x3b by {
        assert('0' <= params_text(p)[i] <= ';');
    }
    lemma_csi_bytes(opened, digits);
    assert(Seq::empty() + digits =~= digits);
    let read = StampModel { csi: digits, ..opened };
    assert(opened.run(digits) == read);
    assert(read.run(tail) == read.step(0x6d));
}

/// Codes that the sequences of `l` are made of.
pub open spec fn all_in_range(l: Seq<Seq<u32>>) -> bool {
    forall|i: int| 0 <= i < l.len() ==> in_range(#[trigger] l[i])
}

proof fn lemma_stamp_codes(m: StampModel, l: Seq<Seq<u32>>)
    requires
        m.parse is Text,
        all_in_range(l),
    ensures
        ({
            let n = m.run(ascii(sgr_texts(l)));
            &&& n == StampModel { csi: n.csi, style: n.style, ..m }
            &&& n.style == after_codes(m.style, l)
        }),
    decreases l.len(),
{
    if l.len() == 0 {
        assert(ascii(sgr_texts(l)) =~= Seq::empty());
    } else {
        let front = l.drop_last();
        assert(all_in_range(front)) by {
            assert forall|i: int| 0 <= i < front.len() implies in_range(#[trigger] front[i]) by {
                assert(in_range(l[i]));
            }
        }
        lemma_stamp_codes(m, front);
        let a = ascii(sgr_texts(front));
        let b = ascii(sgr_text(l.last()));
        assert(ascii(sgr_texts(l)) =~= a + b);
        lemma_stamp_chunks(m, a, b);
        assert(in_range(l[l.len() - 1]));
        lemma_stamp_one(m.run(a), l.last());
    }
}

// ── Styles ───────────────────────────────────────────────────────────────────

proof fn lemma_after_push(s: Style, l: Seq<Seq<u32>>, p: Seq<u32>)
    ensures
        after_codes(s, l.push(p)) == styled_from(after_codes(s, l), known(p), 0),
{
    assert(l.push(p).drop_last() =~= l);
}

pub(crate) proof fn lemma_single_code(s: Style, c: u32)
    requires
        c <= 0xffff,
        c != 38,
        c != 48,
    ensures
        styled_from(s, known(seq![c]), 0) == sgr_simple(s, c),
{
    reveal_with_fuel(styled_from, 2);
    let p = known(seq![c]);
    assert(p.len() == 1 && p[0] == Some(c as u16));
    assert(listed_width(p, 0) == 1);
    assert(styled_at(s, p, 0) == sgr_simple(s, c));
}

proof fn lemma_color_codes(s: Style, c: Color)
    ensures
        styled_from(s, known(fg_codes(c)), 0) == (Style { fg: c, ..s }),
        styled_from(s, known(bg_codes(c)), 0) == (Style { bg: c, ..s }),
        in_range(fg_codes(c)),
        in_range(bg_codes(c)),
{
    reveal_with_fuel(styled_from, 2);
    let f = known(fg_codes(c));
    let b = known(bg_codes(c));
    match c {
        Color::Default => {
            lemma_single_code(s, 39);
            lemma_single_code(s, 49);
        },
        Color::Indexed(n) => {
            if n < 8 {
                lemma_single_code(s, (30 + n) as u32);
                lemma_single_code(s, (40 + n) as u32);
            } else if n < 16 {
                lemma_single_code(s, (82 + n) as u32);
                lemma_single_code(s, (92 + n) as u32);
            } else {
                assert(f[0] == Some(38u16) && f[1] == Some(5u16) && f[2] == Some(n as u16));
                assert(b[0] == Some(48u16) && b[1] == Some(5u16) && b[2] == Some(n as u16));
                assert(listed_color(f, 0) == Some(c));
                assert(listed_color(b, 0) == Some(c));
                assert(listed_width(f, 0) == 3);
                assert(listed_width(b, 0) == 3);
            }
        },
        Color::Rgb(x, y, z) => {
            assert(f[0] == Some(38u16) && f[1] == Some(2u16));
            assert(b[0] == Some(48u16) && b[1] == Some(2u16));
            assert(f[2] == Some(x as u16) && f[3] == Some(y as u16) && f[4] == Some(z as u16));
            assert(b[2] == Some(x as u16) && b[3] == Some(y as u16) && b[4] == Some(z as u16));
            assert(listed_color(f, 0) == Some(c));
            assert(listed_color(b, 0) == Some(c));
            assert(listed_width(f, 0) == 5);
            assert(listed_width(b, 0) == 5);
        },
    }
}

/// Bits `a` after the code for `flag`, on the way from `p` to `n`.
spec fn flipped(a: u16, p: u16, n: u16, flag: u16, off: u16) -> u16 {
    if ((p & flag) != 0) == ((n & flag) != 0) {
        a
    } else if (n & flag) != 0 {
        a | flag
    } else {
        a & !off
    }
}

/// Bits `a` with a code for `flag` where it is called for.
spec fn raised(a: u16, wanted: bool, flag: u16) -> u16 {
    if wanted {
        a | flag
    } else {
        a
    }
}

/// Bits `p` after the codes for bold and dim on the way to `n`.
spec fn weighed(p: u16, n: u16) -> u16 {
    let ends = ((p & 1) != 0 && (n & 1) == 0) || ((p & 2) != 0 && (n & 2) == 0);
    let a = if ends {
        p & !3u16
    } else {
        p
    };
    raised(
        raised(a, (n & 1) != 0 && (ends || (p & 1) == 0), 1),
        (n & 2) != 0 && (ends || (p & 2) == 0),
        2,
    )
}

/// Bits `p` after all codes on the way to `n`.
spec fn switched(p: u16, n: u16) -> u16 {
    let a = flipped(flipped(weighed(p, n), p, n, 4, 4), p, n, 8, 8);
    let b = flipped(flipped(a, p, n, 16, 16), p, n, 64, 64);
    flipped(flipped(b, p, n, 128, 128), p, n, 32, 32)
}

proof fn lemma_bits(p: u16, n: u16)
    requires
        p < 256,
        n < 256,
    ensures
        switched(p, n) == n,
{
    assert(switched(p, n) == n) by (bit_vector)
        requires
            p < 256,
            n < 256,
    ;
}

proof fn lemma_code(s: Style, l: Seq<Seq<u32>>, wanted: bool, code: u32)
    requires
        code <= 29,
        all_in_range(l),
    ensures
        after_codes(s, with_code(l, wanted, code)) == (if wanted {
            sgr_simple(after_codes(s, l), code)
        } else {
            after_codes(s, l)
        }),
        all_in_range(with_code(l, wanted, code)),
{
    lemma_after_push(s, l, seq![code]);
    lemma_single_code(after_codes(s, l), code);
    assert(all_in_range(l.push(seq![code]))) by {
        assert forall|i: int| 0 <= i < l.push(seq![code]).len() implies in_range(
            #[trigger] l.push(seq![code])[i],
        ) by {
            if i < l.len() {
                assert(in_range(l[i]));
            }
        }
    }
}

proof fn lemma_weight(s: Style, l: Seq<Seq<u32>>, p: Style, n: Style)
    requires
        after_codes(s, l) == p,
        all_in_range(l),
    ensures
        after_codes(s, weight_changes(l, p, n)) == (Style {
            attrs: Attributes(weighed(p.attrs.0, n.attrs.0)),
            ..p
        }),
        all_in_range(weight_changes(l, p, n)),
{
    let ends = weight_ends(p, n);
    let bold = n.attrs.holds(Attributes::BOLD) && (ends || !p.attrs.holds(Attributes::BOLD));
    let l1 = with_code(l, ends, 22);
    lemma_code(s, l, ends, 22);
    lemma_bold_dim_off(p.attrs.0);
    let l2 = with_code(l1, bold, 1);
    lemma_code(s, l1, bold, 1);
    lemma_code(
        s,
        l2,
        n.attrs.holds(Attributes::DIM) && (ends || !p.attrs.holds(Attributes::DIM)),
        2,
    );
}

proof fn lemma_flag(
    s: Style,
    l: Seq<Seq<u32>>,
    p: Style,
    n: Style,
    flag: u16,
    on: u32,
    off: u32,
    off_bits: u16,
)
    requires
        on <= 29,
        off <= 29,
        forall|x: Style|
            #![trigger sgr_simple(x, on)]
            sgr_simple(x, on) == (Style { attrs: Attributes(x.attrs.0 | flag), ..x }),
        forall|x: Style|
            #![trigger sgr_simple(x, off)]
            sgr_simple(x, off) == (Style { attrs: Attributes(x.attrs.0 & !off_bits), ..x }),
    ensures
        after_codes(s, with_flag(l, p, n, flag, on, off)) == (Style {
            attrs: Attributes(
                flipped(after_codes(s, l).attrs.0, p.attrs.0, n.attrs.0, flag, off_bits),
            ),
            ..after_codes(s, l)
        }),
        all_in_range(l) ==> all_in_range(with_flag(l, p, n, flag, on, off)),
{
    let c = if n.attrs.holds(flag) {
        on
    } else {
        off
    };
    lemma_after_push(s, l, seq![c]);
    lemma_single_code(after_codes(s, l), c);
    if all_in_range(l) {
        assert(all_in_range(l.push(seq![c]))) by {
            assert forall|i: int| 0 <= i < l.push(seq![c]).len() implies in_range(
                #[trigger] l.push(seq![c])[i],
            ) by {
                if i < l.len() {
                    assert(in_range(l[i]));
                }
            }
        }
    }
}

proof fn lemma_bold_dim_off(a: u16)
    ensures
        (a & !1u16) & !2u16 == a & !3u16,
{
    assert((a & !1u16) & !2u16 == a & !3u16) by (bit_vector);
}

proof fn lemma_attrs(s: Style, l: Seq<Seq<u32>>, p: Style, n: Style)
    requires
        after_codes(s, l) == p,
        p.attrs.0 < 256,
        n.attrs.0 < 256,
        all_in_range(l),
    ensures
        after_codes(s, attr_changes(l, p, n)) == (Style { attrs: n.attrs, ..p }),
        all_in_range(attr_changes(l, p, n)),
{
    let l2 = weight_changes(l, p, n);
    lemma_weight(s, l, p, n);
    let l3 = with_flag(l2, p, n, Attributes::ITALIC, 3, 23);
    lemma_flag(s, l2, p, n, Attributes::ITALIC, 3, 23, 4);
    let l4 = with_flag(l3, p, n, Attributes::UNDERLINE, 4, 24);
    lemma_flag(s, l3, p, n, Attributes::UNDERLINE, 4, 24, 8);
    let l5 = with_flag(l4, p, n, Attributes::BLINK, 5, 25);
    lemma_flag(s, l4, p, n, Attributes::BLINK, 5, 25, 16);
    let l6 = with_flag(l5, p, n, Attributes::HIDDEN, 8, 28);
    lemma_flag(s, l5, p, n, Attributes::HIDDEN, 8, 28, 64);
    let l7 = with_flag(l6, p, n, Attributes::STRIKE, 9, 29);
    lemma_flag(s, l6, p, n, Attributes::STRIKE, 9, 29, 128);
    lemma_flag(s, l7, p, n, Attributes::REVERSE, 7, 27, 32);
    lemma_bits(p.attrs.0, n.attrs.0);
}

proof fn lemma_changes(s: Style, l: Seq<Seq<u32>>, p: Style, n: Style)
    requires
        after_codes(s, l) == p,
        p.attrs.0 < 256,
        n.attrs.0 < 256,
        all_in_range(l),
    ensures
        after_codes(s, changes(l, p, n)) == n,
        all_in_range(changes(l, p, n)),
{
    let l8 = attr_changes(l, p, n);
    lemma_attrs(s, l, p, n);
    let a = Style { attrs: n.attrs, ..p };
    lemma_color_codes(a, n.fg);
    lemma_after_push(s, l8, fg_codes(n.fg));
    let l9 = if p.fg == n.fg {
        l8
    } else {
        l8.push(fg_codes(n.fg))
    };
    assert(all_in_range(l9)) by {
        assert forall|i: int| 0 <= i < l9.len() implies in_range(#[trigger] l9[i]) by {
            if i < l8.len() {
                assert(in_range(l8[i]));
            }
        }
    }
    let b = Style { fg: n.fg, ..a };
    assert(after_codes(s, l9) == b);
    lemma_color_codes(b, n.bg);
    lemma_after_push(s, l9, bg_codes(n.bg));
    let l10 = changes(l, p, n);
    assert(all_in_range(l10)) by {
        assert forall|i: int| 0 <= i < l10.len() implies in_range(#[trigger] l10[i]) by {
            if i < l9.len() {
                assert(in_range(l9[i]));
            }
        }
    }
}

pub(crate) proof fn lemma_sgr_codes(s: Style, prev: Option<Style>, next: Style)
    requires
        match prev {
            Some(p) => p == s && p.attrs.0 < 256,
            None => true,
        },
        next.attrs.0 < 256,
    ensures
        after_codes(s, sgr_codes(prev, next)) == next,
        all_in_range(sgr_codes(prev, next)),
{
    let reset = seq![seq![0u32]];
    assert(all_in_range(reset)) by {
        assert(in_range(reset[0]));
    }
    assert(reset.drop_last() =~= Seq::empty());
    lemma_single_code(s, 0);
    assert(after_codes(s, reset) == plain_style());
    match prev {
        None => lemma_changes(s, reset, plain_style(), next),
        Some(p) => {
            if next == plain_style() {
            } else if p == plain_style() {
                lemma_changes(s, reset, p, next);
            } else {
                lemma_changes(s, Seq::empty(), p, next);
            }
        },
    }
}

/// Written after text in the style `m.style`, the SGR from `prev` to `next`
/// makes `next` the style, and changes nothing else on the screen. With `prev`
/// unknown this holds whatever the style was.
pub proof fn lemma_sgr_round_trip(m: StampModel, prev: Option<Style>, next: Style)
    requires
        m.parse is Text,
        match prev {
            Some(p) => p == m.style && p.attrs.0 < 256,
            None => true,
        },
        next.attrs.0 < 256,
    ensures
        ({
            let n = m.run(encode_utf8(sgr_texts(sgr_codes(prev, next))));
            &&& n.style == next
            &&& n.grid == m.grid
            &&& n.x == m.x
            &&& n.y == m.y
            &&& n.parse is Text
            &&& n.utf == m.utf
        }),
{
    let l = sgr_codes(prev, next);
    lemma_sgr_codes(m.style, prev, next);
    lemma_stamp_codes(m, l);
    lemma_texts_ascii(l);
    is_ascii_chars_encode_utf8(sgr_texts(l));
    assert(encode_utf8(sgr_texts(l)) =~= ascii(sgr_texts(l)));
}

pub(crate) proof fn lemma_texts_ascii(l: Seq<Seq<u32>>)
    requires
        all_in_range(l),
    ensures
        is_ascii_chars(sgr_texts(l)),
    decreases l.len(),
{
    let t = sgr_texts(l);
    if l.len() > 0 {
        let front = l.drop_last();
        assert(all_in_range(front)) by {
            assert forall|i: int| 0 <= i < front.len() implies in_range(#[trigger] front[i]) by {
                assert(in_range(l[i]));
            }
        }
        lemma_texts_ascii(front);
        assert(in_range(l[l.len() - 1]));
        lemma_params(l.last());
        let a = sgr_texts(front);
        let p = params_text(l.last());
        assert forall|i: int| 0 <= i < t.len() implies 0 <= #[trigger] t[i] as int && t[i] as int <= 127 by {
            if i < a.len() {
                assert(t[i] == a[i]);
            } else if a.len() + 2 <= i < a.len() + 2 + p.len() {
                assert(t[i] == p[i - a.len() - 2]);
            }
        }
    }
}

} // verus!

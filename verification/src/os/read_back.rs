//! Keys as they are sent and as they are read: the bytes that a program is sent for a
//! key are those that the key is read from.
use vstd::prelude::*;
use vstd::utf8::{
    encode_scalar, encode_utf8, last_continuation_byte, leading_byte_width_1,
    leading_byte_width_2, leading_byte_width_3, leading_byte_width_4,
    second_last_continuation_byte, third_last_continuation_byte,
};
use crate::app::terminal::{key_code, mouse_code, mouse_report};
use crate::os::unix::{ArrowMemory, ReaderModel};
use crate::os::windows::{
    arrow_key, csi_key, ctrl_letter, mouse_kind, vk_key, whole_chars, VtModel,
};
use crate::os::{Key, MouseAction, MouseButton, MouseEvent};
use crate::text::dec;
use crate::ui::damage::{lemma_width_four, lemma_width_one, lemma_width_three, lemma_width_two};

verus! {

/// The keys that a chunk of bytes is read as, and the state of the reader behind it.
pub open spec fn keys_read(r: ReaderModel, bytes: Seq<u8>) -> (ReaderModel, Seq<Key>)
    decreases bytes.len(),
{
    if bytes.len() == 0 {
        (r, Seq::empty())
    } else {
        let (s, keys) = keys_read(r, bytes.drop_last());
        match s.step(bytes.last()) {
            (t, Some(k)) => (t, keys.push(k)),
            (t, None) => (t, keys),
        }
    }
}

proof fn lemma_keys_read_one(r: ReaderModel, a: u8)
    ensures
        keys_read(r, seq![a]) == (match r.step(a) {
            (t, Some(k)) => (t, seq![k]),
            (t, None) => (t, Seq::empty()),
        }),
{
    reveal_with_fuel(keys_read, 2);
    assert(seq![a].drop_last() =~= Seq::empty());
    if r.step(a).1 is Some {
        assert(Seq::empty().push(r.step(a).1->0) =~= seq![r.step(a).1->0]);
    }
}

/// One byte more.
proof fn lemma_keys_read_next(r: ReaderModel, front: Seq<u8>, b: u8)
    ensures
        keys_read(r, front.push(b)) == (match keys_read(r, front).0.step(b) {
            (t, Some(k)) => (t, keys_read(r, front).1.push(k)),
            (t, None) => (t, keys_read(r, front).1),
        }),
{
    assert(front.push(b).drop_last() =~= front);
}

/// Whether bytes are read as one key, with nothing left over.
pub open spec fn read_as(r: ReaderModel, bytes: Seq<u8>, key: Key) -> bool {
    keys_read(r, bytes).0.state is Start && keys_read(r, bytes).1 == seq![key]
}

/// Three bytes of which the last completes a key.
proof fn lemma_three(r: ReaderModel, a: u8, b: u8, c: u8)
    ensures
        ({
            let (r1, k1) = r.step(a);
            let (r2, k2) = r1.step(b);
            let (r3, k3) = r2.step(c);
            k1 is None && k2 is None && k3 is Some ==> keys_read(r, seq![a, b, c]) == (
                r3,
                seq![k3->0],
            )
        }),
{
    lemma_keys_read_one(r, a);
    lemma_keys_read_next(r, seq![a], b);
    assert(seq![a].push(b) =~= seq![a, b]);
    lemma_keys_read_next(r, seq![a, b], c);
    assert(seq![a, b].push(c) =~= seq![a, b, c]);
    assert(forall|k: Key| Seq::<Key>::empty().push(k) =~= seq![k]);
}

proof fn lemma_four(r: ReaderModel, a: u8, b: u8, c: u8, d: u8)
    ensures
        ({
            let (r1, k1) = r.step(a);
            let (r2, k2) = r1.step(b);
            let (r3, k3) = r2.step(c);
            let (r4, k4) = r3.step(d);
            k1 is None && k2 is None && k3 is None && k4 is Some ==> keys_read(r, seq![a, b, c, d])
                == (r4, seq![k4->0])
        }),
{
    lemma_keys_read_one(r, a);
    lemma_keys_read_next(r, seq![a], b);
    assert(seq![a].push(b) =~= seq![a, b]);
    lemma_keys_read_next(r, seq![a, b], c);
    assert(seq![a, b].push(c) =~= seq![a, b, c]);
    lemma_keys_read_next(r, seq![a, b, c], d);
    assert(seq![a, b, c].push(d) =~= seq![a, b, c, d]);
    assert(forall|k: Key| Seq::<Key>::empty().push(k) =~= seq![k]);
}

/// An arrow with a modifier.
proof fn lemma_six(r: ReaderModel, m: u8, d: u8, key: Key)
    requires
        r.state is Start,
        0x41 <= d <= 0x44,
        m == 0x32 && crate::os::unix::shift_arrow(d) == Some(key) || m == 0x33
            && crate::os::unix::alt_arrow(d) == Some(key),
    ensures
        read_as(r, seq![0x1bu8, 0x5bu8, 0x31u8, 0x3bu8, m, d], key),
{
    let a = seq![0x1bu8];
    let b = seq![0x1bu8, 0x5bu8];
    let c = seq![0x1bu8, 0x5bu8, 0x31u8];
    let e = seq![0x1bu8, 0x5bu8, 0x31u8, 0x3bu8];
    let f = seq![0x1bu8, 0x5bu8, 0x31u8, 0x3bu8, m];
    lemma_keys_read_one(r, 0x1b);
    lemma_keys_read_next(r, a, 0x5b);
    assert(a.push(0x5b) =~= b);
    lemma_keys_read_next(r, b, 0x31);
    assert(b.push(0x31) =~= c);
    lemma_keys_read_next(r, c, 0x3b);
    assert(c.push(0x3b) =~= e);
    lemma_keys_read_next(r, e, m);
    assert(e.push(m) =~= f);
    assert(seq![0x31u8].push(0x3b).push(m) =~= seq![0x31u8, 0x3bu8, m]);
    assert(keys_read(r, f).0.params =~= seq![0x31u8, 0x3bu8, m]);
    lemma_keys_read_next(r, f, d);
    assert(f.push(d) =~= seq![0x1bu8, 0x5bu8, 0x31u8, 0x3bu8, m, d]);
    assert(seq![0x31u8, 0x3bu8, 0x33u8] != seq![0x31u8, 0x3bu8, 0x32u8]) by {
        assert(seq![0x31u8, 0x3bu8, 0x33u8][2] != seq![0x31u8, 0x3bu8, 0x32u8][2]);
    }
    assert(seq![0x33u8].len() != seq![0x31u8, 0x3bu8, 0x32u8].len());
    assert(Seq::<Key>::empty().push(key) =~= seq![key]);
}

proof fn lemma_text_read(r: ReaderModel, c: char)
    requires
        r.state is Start,
        c as u32 >= 0x20,
        !(0x7f <= c as u32 <= 0x9f),
    ensures
        read_as(r, encode_utf8(seq![c]), Key::Char(c)),
{
    let n = c as u32;
    reveal_with_fuel(encode_utf8, 2);
    assert(seq![c].drop_first() =~= Seq::empty());
    assert(encode_utf8(seq![c]) =~= encode_scalar(n));
    assert(forall|k: Key| Seq::<Key>::empty().push(k) =~= seq![k]);
    if n <= 0x7f {
        lemma_width_one(n);
        let a = leading_byte_width_1(n);
        assert(encode_scalar(n) =~= seq![a]);
        lemma_keys_read_one(r, a);
    } else if n <= 0x7ff {
        lemma_width_two(n);
        let (a, b) = (leading_byte_width_2(n), last_continuation_byte(n));
        assert(encode_scalar(n) =~= seq![a].push(b));
        lemma_keys_read_one(r, a);
        lemma_keys_read_next(r, seq![a], b);
    } else if n <= 0xffff {
        lemma_width_three(n);
        let (a, b) = (leading_byte_width_3(n), second_last_continuation_byte(n));
        let d = last_continuation_byte(n);
        assert(encode_scalar(n) =~= seq![a, b, d]);
        lemma_three(r, a, b, d);
    } else {
        lemma_width_four(n);
        let (a, b) = (leading_byte_width_4(n), third_last_continuation_byte(n));
        let (d, e) = (second_last_continuation_byte(n), last_continuation_byte(n));
        assert(encode_scalar(n) =~= seq![a, b, d, e]);
        lemma_four(r, a, b, d, e);
    }
}

/// Whether a terminal sends bytes for a key that are its own: Ctrl with Enter or H sends
/// those of another key, and Escape is read only where nothing follows it.
pub open spec fn has_own_code(key: Key) -> bool {
    &&& key_code(key, 0x7f) is Some
    &&& key != Key::CtrlEnter
    &&& key != Key::CtrlH
    &&& key != Key::Escape
    &&& key matches Key::Char(c) ==> c as u32 >= 0x20 && !(0x7f <= c as u32 <= 0x9f)
}

/// The bytes that a program is sent for a key are read as that key.
pub proof fn lemma_key_read_back(r: ReaderModel, key: Key)
    requires
        r.state is Start,
        has_own_code(key),
    ensures
        read_as(r, key_code(key, 0x7f)->0, key),
{
    let code = key_code(key, 0x7f)->0;
    match key {
        Key::Char(c) => {
            lemma_text_read(r, c);
        },
        Key::ShiftUp => lemma_six(r, 0x32, 0x41, key),
        Key::ShiftDown => lemma_six(r, 0x32, 0x42, key),
        Key::ShiftRight => lemma_six(r, 0x32, 0x43, key),
        Key::ShiftLeft => lemma_six(r, 0x32, 0x44, key),
        Key::AltUp => lemma_six(r, 0x33, 0x41, key),
        Key::AltDown => lemma_six(r, 0x33, 0x42, key),
        Key::AltRight => lemma_six(r, 0x33, 0x43, key),
        Key::AltLeft => lemma_six(r, 0x33, 0x44, key),
        Key::Delete | Key::PageUp | Key::PageDown => {
            lemma_four(r, 0x1b, 0x5b, code[2], 0x7e);
            assert(code =~= seq![0x1bu8, 0x5bu8, code[2], 0x7eu8]);
            assert(seq![0x33u8][0] != seq![0x35u8][0] && seq![0x33u8][0] != seq![0x36u8][0]);
            assert(seq![0x33u8, 0x3bu8, 0x35u8].len() == 3);
            assert(seq![0x35u8][0] != seq![0x36u8][0]);
        },
        Key::Home | Key::End | Key::Up | Key::Down | Key::Left | Key::Right => {
            lemma_three(r, 0x1b, 0x5b, code[2]);
            assert(code =~= seq![0x1bu8, 0x5bu8, code[2]]);
        },
        _ => {
            lemma_keys_read_one(r, code[0]);
            assert(code =~= seq![code[0]]);
        },
    }
}

/// No two keys are sent as the same bytes.
pub proof fn lemma_codes_differ(r: ReaderModel, a: Key, b: Key)
    requires
        r.state is Start,
        has_own_code(a),
        has_own_code(b),
        key_code(a, 0x7f) == key_code(b, 0x7f),
    ensures
        a == b,
{
    lemma_key_read_back(r, a);
    lemma_key_read_back(r, b);
    assert(seq![a][0] == seq![b][0]);
}

// ── The console ──────────────────────────────────────────────────────────────

/// The keys that characters of the console are read as, and the state behind them.
pub open spec fn keys_typed(v: VtModel, chars: Seq<u16>) -> (VtModel, Seq<Key>)
    decreases chars.len(),
{
    if chars.len() == 0 {
        (v, Seq::empty())
    } else {
        let (s, keys) = keys_typed(v, chars.drop_last());
        match s.record(chars.last()) {
            (t, Some(k)) => (t, keys.push(k)),
            (t, None) => (t, keys),
        }
    }
}

/// Bytes as characters of the console.
pub open spec fn widened(b: Seq<u8>) -> Seq<u16> {
    Seq::new(b.len(), |i: int| b[i] as u16)
}

proof fn lemma_keys_typed_next(v: VtModel, front: Seq<u16>, c: u16)
    ensures
        keys_typed(v, front.push(c)) == (match keys_typed(v, front).0.record(c) {
            (t, Some(k)) => (t, keys_typed(v, front).1.push(k)),
            (t, None) => (t, keys_typed(v, front).1),
        }),
{
    assert(front.push(c).drop_last() =~= front);
}

proof fn lemma_whole(p: Seq<u16>)
    requires
        forall|i: int| 0 <= i < p.len() ==> #[trigger] p[i] < 0xd800,
    ensures
        whole_chars(p) == p,
    decreases p.len(),
{
    if p.len() > 0 {
        lemma_whole(p.drop_last());
        assert(p.drop_last().push(p.last()) =~= p);
    } else {
        assert(p =~= Seq::empty());
    }
}

/// A sequence of which the first `n` characters have been read and no key came out.
proof fn lemma_sequence_open(v: VtModel, chars: Seq<u16>, n: int)
    requires
        v.seq.len() == 0,
        v.pending == 0xffff,
        3 <= chars.len() <= 20,
        1 <= n < chars.len(),
        chars[0] == 0x1b,
        chars[1] == 0x5b,
        forall|i: int|
            2 <= i < chars.len() - 1 ==> 0x30 <= #[trigger] chars[i] <= 0x39 || chars[i] == 0x3b,
    ensures
        keys_typed(v, chars.take(n)) == (
            VtModel { seq: chars.take(n), pending: 0xffff },
            Seq::<Key>::empty(),
        ),
    decreases n,
{
    if n == 1 {
        assert(chars.take(1) =~= Seq::empty().push(0x1bu16));
        lemma_keys_typed_next(v, Seq::empty(), 0x1b);
        assert(v.seq.push(0x1b) =~= chars.take(1));
    } else {
        lemma_sequence_open(v, chars, n - 1);
        assert(chars.take(n) =~= chars.take(n - 1).push(chars[n - 1]));
        lemma_keys_typed_next(v, chars.take(n - 1), chars[n - 1]);
    }
}

proof fn lemma_sequence_closed(v: VtModel, chars: Seq<u16>)
    requires
        v.seq.len() == 0,
        v.pending == 0xffff,
        3 <= chars.len() <= 20,
        chars[0] == 0x1b,
        chars[1] == 0x5b,
        forall|i: int|
            2 <= i < chars.len() - 1 ==> 0x30 <= #[trigger] chars[i] <= 0x39 || chars[i] == 0x3b,
        0x40 <= chars.last() <= 0x7e,
    ensures
        ({
            let k = csi_key(chars.subrange(2, chars.len() - 1), chars.last());
            keys_typed(v, chars).1 == (match k {
                Some(key) => seq![key],
                None => Seq::<Key>::empty(),
            }) && keys_typed(v, chars).0.seq.len() == 0
        }),
{
    let n = chars.len() - 1;
    lemma_sequence_open(v, chars, n);
    assert(chars =~= chars.take(n).push(chars.last()));
    lemma_keys_typed_next(v, chars.take(n), chars.last());
    let p = chars.subrange(2, n);
    assert(chars.take(n).skip(2) =~= p);
    lemma_whole(p);
    assert(forall|k: Key| Seq::<Key>::empty().push(k) =~= seq![k]);
}

/// The keys that a console sends as sequences are read from what a terminal sends for
/// them.
pub proof fn lemma_sequence_read_back(v: VtModel, key: Key)
    requires
        v.seq.len() == 0,
        v.pending == 0xffff,
        key_code(key, 0x08) is Some,
        (key_code(key, 0x08)->0).len() >= 3,
        !(key is Char),
    ensures
        keys_typed(v, widened(key_code(key, 0x08)->0)).1 == seq![key],
{
    let code = key_code(key, 0x08)->0;
    let w = widened(code);
    lemma_sequence_closed(v, w);
    let p = w.subrange(2, w.len() - 1);
    if code.len() == 3 {
        assert(p.len() == 0);
        assert(seq![0x31u16, 0x3bu16, 0x32u16].len() == 3 && seq![0x31u16, 0x3bu16, 0x33u16].len()
            == 3);
    } else if code.len() == 4 {
        assert(p =~= seq![code[2] as u16]);
        assert(seq![0x33u16][0] != seq![0x35u16][0] && seq![0x33u16][0] != seq![0x36u16][0]
            && seq![0x35u16][0] != seq![0x36u16][0]);
        assert(seq![0x31u16, 0x31u16].len() == 2 && seq![0x33u16, 0x3bu16, 0x35u16].len() == 3);
    } else {
        assert(p =~= seq![0x31u16, 0x3bu16, code[4] as u16]);
        assert(seq![0x31u16, 0x3bu16, 0x32u16][2] != seq![0x31u16, 0x3bu16, 0x33u16][2]);
    }
}

/// A letter with Ctrl is the key that is sent as the letter's place in the alphabet.
pub proof fn lemma_ctrl_letters(vk: u16, ctrl_live: bool)
    requires
        0x41 <= vk <= 0x5a,
        ctrl_letter(vk) is Some,
    ensures
        vk_key(vk, 0, true, false, false, ctrl_live) == ctrl_letter(vk),
        key_code(ctrl_letter(vk)->0, 0x7f) == Some(seq![(vk - 0x40) as u8]),
{
}

/// An arrow with Alt or Shift is sent as the arrow is, with the number of the modifier
/// before its letter: 2 for Shift, 3 for Alt.
pub proof fn lemma_console_arrows(vk: u16)
    requires
        arrow_key(vk) is Some,
    ensures
        ({
            let plain = vk_key(vk, 0, false, false, false, false);
            let shift = vk_key(vk, 0, false, false, true, false);
            let alt = vk_key(vk, 0, false, true, false, false);
            &&& plain is Some && shift is Some && alt is Some
            &&& (key_code(plain->0, 0x7f)->0).len() == 3
            &&& key_code(shift->0, 0x7f) == Some(
                seq![
                    0x1bu8,
                    0x5bu8,
                    0x31u8,
                    0x3bu8,
                    0x32u8,
                    (key_code(plain->0, 0x7f)->0).last(),
                ],
            )
            &&& key_code(alt->0, 0x7f) == Some(
                seq![
                    0x1bu8,
                    0x5bu8,
                    0x31u8,
                    0x3bu8,
                    0x33u8,
                    (key_code(plain->0, 0x7f)->0).last(),
                ],
            )
        }),
{
}

/// The arrow keys of the console: 0x25 to 0x28 are left, up, right and down.
pub proof fn lemma_console_arrow_codes()
    ensures
        arrow_key(0x25) == Some(Key::Left),
        arrow_key(0x26) == Some(Key::Up),
        arrow_key(0x27) == Some(Key::Right),
        arrow_key(0x28) == Some(Key::Down),
        forall|vk: u16| #[trigger] arrow_key(vk) is Some ==> 0x25 <= vk <= 0x28,
{
}

// ── The pointer ──────────────────────────────────────────────────────────────

/// The turn of a wheel away from the user is up, towards them down; it is the high half of
/// the buttons, as a signed number.
pub proof fn lemma_wheel_read(turn: u32, low: u32, flags: u32)
    requires
        0 < turn < 0x10000,
        low < 0x10000,
        flags & 4 != 0,
    ensures
        mouse_kind((turn * 0x10000 + low) as u32, flags) == (
            MouseAction::Press,
            if turn < 0x8000 {
                MouseButton::WheelUp
            } else {
                MouseButton::WheelDown
            },
        ),
{
    assert((turn * 0x10000 + low) / 0x10000 == turn as int);
}

/// The first button of a record is the left one, the next the right one and the third the
/// middle one. A record without a button is a button let go of, or with the flag of a
/// movement the pointer moved; with a button it is that one pressed or dragged.
pub proof fn lemma_buttons_read(buttons: u32, flags: u32)
    requires
        buttons < 8,
        flags & 4 == 0,
    ensures
        ({
            let (kind, button) = mouse_kind(buttons, flags);
            let moves = flags & 1 != 0;
            &&& kind == (if buttons == 0 && moves {
                MouseAction::Move
            } else if buttons == 0 {
                MouseAction::Release
            } else if moves {
                MouseAction::Drag
            } else {
                MouseAction::Press
            })
            &&& buttons % 2 == 1 ==> button == MouseButton::Left
            &&& buttons == 2 || buttons == 6 ==> button == MouseButton::Right
            &&& buttons == 4 ==> button == MouseButton::Middle
        }),
{
    assert(buttons & 1 == buttons % 2) by (bit_vector);
    assert(buttons & 2 == 0 <==> buttons % 4 < 2) by (bit_vector);
    assert(buttons < 8 ==> (buttons & 4 == 0 <==> buttons < 4)) by (bit_vector);
}

/// What a program is told of the pointer: the number of the button, 4 more with Shift, 8
/// more with Alt, 16 more with Ctrl and 64 more for a movement with a button or without;
/// then the column and the row, counted from 1.
pub proof fn lemma_pointer_report(ev: MouseEvent)
    requires
        ev.button == MouseButton::Left || ev.button == MouseButton::Middle || ev.button
            == MouseButton::Right,
    ensures
        ({
            let base: int = if ev.button == MouseButton::Left {
                0
            } else if ev.button == MouseButton::Middle {
                1
            } else {
                2
            };
            let n: int = base + (if ev.shift {
                4int
            } else {
                0
            }) + (if ev.alt {
                8int
            } else {
                0
            }) + (if ev.ctrl {
                16int
            } else {
                0
            }) + (if ev.kind == MouseAction::Move || ev.kind == MouseAction::Drag {
                64int
            } else {
                0
            });
            mouse_report(ev) == seq!['\u{1b}', '[', '<'] + dec(n as nat) + seq![';'] + dec(
                ev.x as nat,
            ) + seq![';'] + dec(ev.y as nat) + seq![
                if ev.kind == MouseAction::Release {
                    'm'
                } else {
                    'M'
                },
            ]
        }),
{
    reveal_strlit("\u{1b}[<");
    reveal_strlit(";");
    reveal_strlit("m");
    reveal_strlit("M");
    assert("\u{1b}[<"@ =~= seq!['\u{1b}', '[', '<']);
    assert(";"@ =~= seq![';']);
    assert("m"@ =~= seq!['m']);
    assert("M"@ =~= seq!['M']);
    assert(forall|c: u16|
        c < 4 ==> #[trigger] (c | 4) == c + 4 && (c | 8) == c + 8 && (c | 16) == c + 16 && (c | 64)
            == c + 64) by (bit_vector);
    assert(forall|c: u16| c < 8 ==> #[trigger] (c | 8) == c + 8) by (bit_vector);
    assert(forall|c: u16| c < 16 ==> #[trigger] (c | 16) == c + 16) by (bit_vector);
    assert(forall|c: u16| c < 64 ==> #[trigger] (c | 64) == c + 64) by (bit_vector);
}

/// The wheel is told to a program as button 64, turned up, and 65, turned down.
pub proof fn lemma_wheel_report(ev: MouseEvent)
    requires
        ev.kind == MouseAction::Press,
        !ev.shift && !ev.alt && !ev.ctrl,
    ensures
        ev.button == MouseButton::WheelUp ==> mouse_code(ev) == 64,
        ev.button == MouseButton::WheelDown ==> mouse_code(ev) == 65,
{
}

// ── Held arrow keys ──────────────────────────────────────────────────────────

/// An arrow key that was read counts as held for half a second, beside those that were
/// held already; any other key changes nothing.
pub proof fn lemma_arrow_held(m: ArrowMemory, key: Key, read: u64, now: u64)
    requires
        read <= now,
    ensures
        ({
            let h = m.with(key, read).at(now).held;
            let arrow = key == Key::Up || key == Key::Down || key == Key::Left || key == Key::Right;
            &&& arrow && now <= read + 500 ==> h.up == (key == Key::Up || m.held.up) && h.down == (
            key == Key::Down || m.held.down) && h.left == (key == Key::Left || m.held.left)
                && h.right == (key == Key::Right || m.held.right)
            &&& arrow && now > read + 500 ==> !h.up && !h.down && !h.left && !h.right
            &&& !arrow ==> m.with(key, read) == m
        }),
{
}

} // verus!

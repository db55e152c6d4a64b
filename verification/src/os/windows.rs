//! Keys and pointer events out of console input records, and out of characters
//! that spell escape sequences.
use vstd::prelude::*;
use crate::os::{Key, MouseAction, MouseButton, MouseEvent};
use crate::text::from_scalar;

verus! {

pub const KEY_EVENT_TYPE: u16 = 0x0001;

pub const MOUSE_EVENT_TYPE: u16 = 0x0002;

pub const MOUSE_MOVED: u32 = 0x0001;

pub const MOUSE_WHEELED: u32 = 0x0004;

pub const FROM_LEFT_1ST_BUTTON_PRESSED: u32 = 0x0001;

pub const RIGHTMOST_BUTTON_PRESSED: u32 = 0x0002;

pub const FROM_LEFT_2ND_BUTTON_PRESSED: u32 = 0x0004;

pub const SHIFT_PRESSED: u32 = 0x0010;

pub const LEFT_CTRL: u32 = 0x0008;

pub const RIGHT_CTRL: u32 = 0x0004;

pub const LEFT_ALT: u32 = 0x0002;

pub const RIGHT_ALT: u32 = 0x0001;

/// One record of the console's input: its type and sixteen bytes whose meaning
/// the type gives, numbers with their low byte first.
#[derive(Clone, Copy, Debug)]
pub struct InputRecord {
    pub event_type: u16,
    pub event: [u8; 16],
}

/// The sixteen bit number at byte `i`.
pub open spec fn word_at(e: Seq<u8>, i: int) -> u16 {
    (e[i] + 256 * e[i + 1]) as u16
}

/// The thirty-two bit number at byte `i`.
pub open spec fn dword_at(e: Seq<u8>, i: int) -> u32 {
    (e[i] + 256 * e[i + 1] + 65536 * e[i + 2] + 16777216 * e[i + 3]) as u32
}

fn read_word(e: &[u8; 16], i: usize) -> (v: u16)
    requires
        i + 1 < 16,
    ensures
        v == word_at(e@, i as int),
{
    e[i] as u16 + 256 * e[i + 1] as u16
}

fn read_dword(e: &[u8; 16], i: usize) -> (v: u32)
    requires
        i + 3 < 16,
    ensures
        v == dword_at(e@, i as int),
{
    e[i] as u32 + 256 * e[i + 1] as u32 + 65536 * e[i + 2] as u32 + 16777216 * e[i + 3] as u32
}

/// Whether a record says that a key went down.
pub fn is_key_down(rec: &InputRecord) -> (r: bool)
    ensures
        r == (rec.event_type == KEY_EVENT_TYPE && dword_at(rec.event@, 0) != 0),
{
    rec.event_type == KEY_EVENT_TYPE && read_dword(&rec.event, 0) != 0
}

/// Whether a record is about the pointer.
pub fn is_mouse(rec: &InputRecord) -> (r: bool)
    ensures
        r == (rec.event_type == MOUSE_EVENT_TYPE),
{
    rec.event_type == MOUSE_EVENT_TYPE
}

/// What a pointer record says happened, and to which button.
pub open spec fn mouse_kind(buttons: u32, flags: u32) -> (MouseAction, MouseButton) {
    let left = buttons & FROM_LEFT_1ST_BUTTON_PRESSED != 0;
    let right = buttons & RIGHTMOST_BUTTON_PRESSED != 0;
    let middle = buttons & FROM_LEFT_2ND_BUTTON_PRESSED != 0;
    let button = if left {
        MouseButton::Left
    } else if right {
        MouseButton::Right
    } else {
        MouseButton::Middle
    };
    let held = left || right || middle;
    if flags & MOUSE_WHEELED != 0 {
        // The high half of the button state is the signed turn of the wheel.
        if 0 < buttons / 65536 < 0x8000 {
            (MouseAction::Press, MouseButton::WheelUp)
        } else {
            (MouseAction::Press, MouseButton::WheelDown)
        }
    } else if flags & MOUSE_MOVED != 0 {
        if held {
            (MouseAction::Drag, button)
        } else {
            (MouseAction::Move, MouseButton::Left)
        }
    } else if held {
        (MouseAction::Press, button)
    } else {
        (MouseAction::Release, MouseButton::Left)
    }
}

/// The event of a pointer record. `ctrl` and `alt` say whether these keys are
/// held, which the record itself may not know.
pub open spec fn mouse_key(e: Seq<u8>, ctrl: bool, alt: bool) -> Key {
    let (kind, button) = mouse_kind(dword_at(e, 4), dword_at(e, 12));
    Key::Mouse(
        MouseEvent {
            x: word_at(e, 0).saturating_add(1),
            y: word_at(e, 2).saturating_add(1),
            kind,
            button,
            shift: dword_at(e, 8) & SHIFT_PRESSED != 0,
            ctrl,
            alt,
        },
    )
}

/// The event of a pointer record, with Ctrl and Alt as they are held.
pub fn decode_mouse(rec: &InputRecord, ctrl: bool, alt: bool) -> (k: Key)
    ensures
        k == mouse_key(rec.event@, ctrl, alt),
{
    let buttons: u32 = read_dword(&rec.event, 4);
    let flags: u32 = read_dword(&rec.event, 12);
    let left = buttons & FROM_LEFT_1ST_BUTTON_PRESSED != 0;
    let right = buttons & RIGHTMOST_BUTTON_PRESSED != 0;
    let middle = buttons & FROM_LEFT_2ND_BUTTON_PRESSED != 0;
    let pressed = if left {
        MouseButton::Left
    } else if right {
        MouseButton::Right
    } else {
        MouseButton::Middle
    };
    let held = left || right || middle;
    let (kind, button) = if flags & MOUSE_WHEELED != 0 {
        let turn: u32 = buttons / 65536;
        if 0 < turn && turn < 0x8000 {
            (MouseAction::Press, MouseButton::WheelUp)
        } else {
            (MouseAction::Press, MouseButton::WheelDown)
        }
    } else if flags & MOUSE_MOVED != 0 {
        if held {
            (MouseAction::Drag, pressed)
        } else {
            (MouseAction::Move, MouseButton::Left)
        }
    } else if held {
        (MouseAction::Press, pressed)
    } else {
        (MouseAction::Release, MouseButton::Left)
    };
    Key::Mouse(
        MouseEvent {
            x: read_word(&rec.event, 0).saturating_add(1),
            y: read_word(&rec.event, 2).saturating_add(1),
            kind,
            button,
            shift: read_dword(&rec.event, 8) & SHIFT_PRESSED != 0,
            ctrl,
            alt,
        },
    )
}

// ── Virtual key codes ────────────────────────────────────────────────────────

/// The digit keys with Ctrl, on the main block and on the number pad.
pub open spec fn ctrl_digit(vk: u16) -> Option<Key> {
    match vk {
        0x31 | 0x61 => Some(Key::Ctrl1),
        0x32 | 0x62 => Some(Key::Ctrl2),
        0x33 | 0x63 => Some(Key::Ctrl3),
        0x34 | 0x64 => Some(Key::Ctrl4),
        _ => None,
    }
}

fn find_ctrl_digit(vk: u16) -> (k: Option<Key>)
    ensures
        k == ctrl_digit(vk),
{
    match vk {
        0x31 | 0x61 => Some(Key::Ctrl1),
        0x32 | 0x62 => Some(Key::Ctrl2),
        0x33 | 0x63 => Some(Key::Ctrl3),
        0x34 | 0x64 => Some(Key::Ctrl4),
        _ => None,
    }
}

/// The arrow keys with Alt.
pub open spec fn alt_arrow(vk: u16) -> Option<Key> {
    match vk {
        0x26 => Some(Key::AltUp),
        0x28 => Some(Key::AltDown),
        0x25 => Some(Key::AltLeft),
        0x27 => Some(Key::AltRight),
        _ => None,
    }
}

fn find_alt_arrow(vk: u16) -> (k: Option<Key>)
    ensures
        k == alt_arrow(vk),
{
    match vk {
        0x26 => Some(Key::AltUp),
        0x28 => Some(Key::AltDown),
        0x25 => Some(Key::AltLeft),
        0x27 => Some(Key::AltRight),
        _ => None,
    }
}

/// The letter keys with Ctrl.
pub open spec fn ctrl_letter(vk: u16) -> Option<Key> {
    match vk {
        0x44 => Some(Key::CtrlD),
        0x45 => Some(Key::CtrlE),
        0x46 => Some(Key::CtrlF),
        0x48 => Some(Key::CtrlH),
        0x4a => Some(Key::CtrlJ),
        0x4b => Some(Key::CtrlK),
        0x4c => Some(Key::CtrlL),
        0x4e => Some(Key::CtrlN),
        0x50 => Some(Key::CtrlP),
        0x51 => Some(Key::CtrlQ),
        0x56 => Some(Key::CtrlV),
        0x57 => Some(Key::CtrlW),
        0x58 => Some(Key::CtrlX),
        0x5a => Some(Key::CtrlZ),
        0x54 => Some(Key::CtrlT),
        _ => None,
    }
}

fn find_ctrl_letter(vk: u16) -> (k: Option<Key>)
    ensures
        k == ctrl_letter(vk),
{
    match vk {
        0x44 => Some(Key::CtrlD),
        0x45 => Some(Key::CtrlE),
        0x46 => Some(Key::CtrlF),
        0x48 => Some(Key::CtrlH),
        0x4a => Some(Key::CtrlJ),
        0x4b => Some(Key::CtrlK),
        0x4c => Some(Key::CtrlL),
        0x4e => Some(Key::CtrlN),
        0x50 => Some(Key::CtrlP),
        0x51 => Some(Key::CtrlQ),
        0x56 => Some(Key::CtrlV),
        0x57 => Some(Key::CtrlW),
        0x58 => Some(Key::CtrlX),
        0x5a => Some(Key::CtrlZ),
        0x54 => Some(Key::CtrlT),
        _ => None,
    }
}

/// The letter keys with Alt.
pub open spec fn alt_letter(vk: u16) -> Option<Key> {
    match vk {
        0x48 => Some(Key::AltH),
        0x52 => Some(Key::AltR),
        0x56 => Some(Key::AltV),
        0x4d => Some(Key::AltM),
        _ => None,
    }
}

fn find_alt_letter(vk: u16) -> (k: Option<Key>)
    ensures
        k == alt_letter(vk),
{
    match vk {
        0x48 => Some(Key::AltH),
        0x52 => Some(Key::AltR),
        0x56 => Some(Key::AltV),
        0x4d => Some(Key::AltM),
        _ => None,
    }
}

/// The keys that mean the same with every modifier.
pub open spec fn plain_key(vk: u16) -> Option<Key> {
    match vk {
        0x08 => Some(Key::Backspace),
        0x09 => Some(Key::Tab),
        0x2e => Some(Key::Delete),
        0x1b => Some(Key::Escape),
        0x21 => Some(Key::PageUp),
        0x22 => Some(Key::PageDown),
        0x23 => Some(Key::End),
        0x24 => Some(Key::Home),
        0x70 => Some(Key::F1),
        _ => None,
    }
}

fn find_plain_key(vk: u16) -> (k: Option<Key>)
    ensures
        k == plain_key(vk),
{
    match vk {
        0x08 => Some(Key::Backspace),
        0x09 => Some(Key::Tab),
        0x2e => Some(Key::Delete),
        0x1b => Some(Key::Escape),
        0x21 => Some(Key::PageUp),
        0x22 => Some(Key::PageDown),
        0x23 => Some(Key::End),
        0x24 => Some(Key::Home),
        0x70 => Some(Key::F1),
        _ => None,
    }
}

/// The arrow keys.
pub open spec fn arrow_key(vk: u16) -> Option<Key> {
    match vk {
        0x26 => Some(Key::Up),
        0x28 => Some(Key::Down),
        0x25 => Some(Key::Left),
        0x27 => Some(Key::Right),
        _ => None,
    }
}

fn find_arrow_key(vk: u16) -> (k: Option<Key>)
    ensures
        k == arrow_key(vk),
{
    match vk {
        0x26 => Some(Key::Up),
        0x28 => Some(Key::Down),
        0x25 => Some(Key::Left),
        0x27 => Some(Key::Right),
        _ => None,
    }
}

/// The arrow keys with Shift.
pub open spec fn shift_arrow(vk: u16) -> Option<Key> {
    match vk {
        0x26 => Some(Key::ShiftUp),
        0x28 => Some(Key::ShiftDown),
        0x25 => Some(Key::ShiftLeft),
        0x27 => Some(Key::ShiftRight),
        _ => None,
    }
}

fn find_shift_arrow(vk: u16) -> (k: Option<Key>)
    ensures
        k == shift_arrow(vk),
{
    match vk {
        0x26 => Some(Key::ShiftUp),
        0x28 => Some(Key::ShiftDown),
        0x25 => Some(Key::ShiftLeft),
        0x27 => Some(Key::ShiftRight),
        _ => None,
    }
}

/// The key of a virtual key code and its character, with the modifiers held;
/// `ctrl_live` is what the keyboard says of Ctrl itself. `None` for a key that
/// only its character tells.
pub open spec fn vk_key(
    vk: u16,
    ch: u16,
    ctrl: bool,
    alt: bool,
    shift: bool,
    ctrl_live: bool,
) -> Option<Key> {
    if ctrl && ctrl_digit(vk) is Some {
        ctrl_digit(vk)
    } else if alt && alt_arrow(vk) is Some {
        alt_arrow(vk)
    } else if ctrl && vk == 0x2e {
        Some(Key::CtrlDelete)
    } else if ch == 3 || (ctrl && vk == 0x43) {
        Some(Key::CtrlC)
    } else if ctrl && ctrl_letter(vk) is Some {
        ctrl_letter(vk)
    } else if alt && alt_letter(vk) is Some {
        alt_letter(vk)
    } else if vk == 0x0d {
        Some(
            if ctrl || ctrl_live {
                Key::CtrlEnter
            } else {
                Key::Enter
            },
        )
    } else if plain_key(vk) is Some {
        plain_key(vk)
    } else if shift {
        shift_arrow(vk)
    } else {
        arrow_key(vk)
    }
}

/// The key of a virtual key code.
pub fn key_of_vk(vk: u16, ch: u16, ctrl: bool, alt: bool, shift: bool, ctrl_live: bool) -> (k:
    Option<Key>)
    ensures
        k == vk_key(vk, ch, ctrl, alt, shift, ctrl_live),
{
    let digit = find_ctrl_digit(vk);
    if ctrl && digit.is_some() {
        return digit;
    }
    let arrow = find_alt_arrow(vk);
    if alt && arrow.is_some() {
        return arrow;
    }
    if ctrl && vk == 0x2e {
        return Some(Key::CtrlDelete);
    }
    if ch == 3 || (ctrl && vk == 0x43) {
        return Some(Key::CtrlC);
    }
    let letter = find_ctrl_letter(vk);
    if ctrl && letter.is_some() {
        return letter;
    }
    let alt_key = find_alt_letter(vk);
    if alt && alt_key.is_some() {
        return alt_key;
    }
    if vk == 0x0d {
        if ctrl || ctrl_live {
            return Some(Key::CtrlEnter);
        }
        return Some(Key::Enter);
    }
    let plain = find_plain_key(vk);
    if plain.is_some() {
        return plain;
    }
    if shift {
        find_shift_arrow(vk)
    } else {
        find_arrow_key(vk)
    }
}

// ── Characters that spell sequences ──────────────────────────────────────────

/// No character waits.
pub const VT_PENDING_NONE: u16 = 0xffff;

/// How many characters of a sequence are kept.
pub const VT_SEQ_LEN: usize = 24;

/// What the characters so far have led to: the sequence being read, and a
/// character that waits to be read again.
#[verifier::ext_equal]
pub struct VtModel {
    pub seq: Seq<u16>,
    pub pending: u16,
}

/// The keys of control characters.
pub open spec fn char_control(ch: u16) -> Option<Key> {
    match ch {
        0x08 => Some(Key::Backspace),
        0x0d => Some(Key::Enter),
        0x09 => Some(Key::Tab),
        0x03 => Some(Key::CtrlC),
        0x04 => Some(Key::CtrlD),
        0x0c => Some(Key::CtrlL),
        0x1a => Some(Key::CtrlZ),
        _ => None,
    }
}

fn find_char_control(ch: u16) -> (k: Option<Key>)
    ensures
        k == char_control(ch),
{
    match ch {
        0x08 => Some(Key::Backspace),
        0x0d => Some(Key::Enter),
        0x09 => Some(Key::Tab),
        0x03 => Some(Key::CtrlC),
        0x04 => Some(Key::CtrlD),
        0x0c => Some(Key::CtrlL),
        0x1a => Some(Key::CtrlZ),
        _ => None,
    }
}

/// The keys of ESC `O` and a letter.
pub open spec fn ss3_key(ch: u16) -> Option<Key> {
    match ch {
        0x50 => Some(Key::F1),
        0x41 => Some(Key::Up),
        0x42 => Some(Key::Down),
        0x43 => Some(Key::Right),
        0x44 => Some(Key::Left),
        _ => None,
    }
}

fn find_ss3_key(ch: u16) -> (k: Option<Key>)
    ensures
        k == ss3_key(ch),
{
    match ch {
        0x50 => Some(Key::F1),
        0x41 => Some(Key::Up),
        0x42 => Some(Key::Down),
        0x43 => Some(Key::Right),
        0x44 => Some(Key::Left),
        _ => None,
    }
}

/// The key of a single character.
pub open spec fn text_key(ch: u16) -> Option<Key> {
    if ch < 0x20 {
        char_control(ch)
    } else {
        match from_scalar(ch as u32) {
            Some(c) => Some(Key::Char(c)),
            None => None,
        }
    }
}

/// The characters of `p` that are no half of a surrogate pair.
pub open spec fn whole_chars(p: Seq<u16>) -> Seq<u16>
    decreases p.len(),
{
    if p.len() == 0 {
        Seq::empty()
    } else {
        let front = whole_chars(p.drop_last());
        if 0xd800 <= p.last() <= 0xdfff {
            front
        } else {
            front.push(p.last())
        }
    }
}

/// One of three keys by the parameters of an arrow sequence: plain, with Shift
/// (`1;2`) or with Alt (`1;3`).
pub open spec fn arrow_of(p: Seq<u16>, plain: Key, shift: Key, alt: Key) -> Key {
    if p == seq![0x31u16, 0x3bu16, 0x32u16] {
        shift
    } else if p == seq![0x31u16, 0x3bu16, 0x33u16] {
        alt
    } else {
        plain
    }
}

/// The key of ESC `[`, the parameters `p` and the last character `ch`.
pub open spec fn csi_key(p: Seq<u16>, ch: u16) -> Option<Key> {
    match ch {
        0x7e => if p == seq![0x31u16, 0x31u16] {
            Some(Key::F1)
        } else if p == seq![0x33u16] {
            Some(Key::Delete)
        } else if p == seq![0x33u16, 0x3bu16, 0x35u16] {
            Some(Key::CtrlDelete)
        } else if p == seq![0x35u16] {
            Some(Key::PageUp)
        } else if p == seq![0x36u16] {
            Some(Key::PageDown)
        } else {
            None
        },
        0x41 => Some(arrow_of(p, Key::Up, Key::ShiftUp, Key::AltUp)),
        0x42 => Some(arrow_of(p, Key::Down, Key::ShiftDown, Key::AltDown)),
        0x43 => Some(arrow_of(p, Key::Right, Key::ShiftRight, Key::AltRight)),
        0x44 => Some(arrow_of(p, Key::Left, Key::ShiftLeft, Key::AltLeft)),
        0x48 => Some(Key::Home),
        0x46 => Some(Key::End),
        _ => None,
    }
}

impl VtModel {
    pub open spec fn wf(self) -> bool {
        &&& self.seq.len() <= VT_SEQ_LEN
        &&& self.seq.len() >= 2 ==> self.seq[1] == 0x4f || self.seq[1] == 0x5b
        &&& self.seq.len() >= 3 ==> self.seq[1] == 0x5b
    }

    /// One character: the state after it, and the key that it completes. A
    /// sequence longer than what is kept ends without a key.
    pub open spec fn step(self, ch: u16) -> (VtModel, Option<Key>) {
        let n = self.seq.len();
        let done = VtModel { seq: Seq::empty(), ..self };
        let bare = VtModel { seq: Seq::empty(), pending: ch };
        let longer = VtModel { seq: self.seq.push(ch), ..self };
        let last = 0x40 <= ch <= 0x7e;
        if n == 0 {
            if ch == 0x1b {
                (longer, None)
            } else {
                (VtModel { pending: VT_PENDING_NONE, ..self }, text_key(ch))
            }
        } else if n == 1 {
            if ch == 0x5b || ch == 0x4f {
                (longer, None)
            } else {
                (bare, Some(Key::Escape))
            }
        } else if self.seq[1] == 0x4f {
            if ss3_key(ch) is Some {
                (done, ss3_key(ch))
            } else {
                (bare, Some(Key::Escape))
            }
        } else if n == 2 && !last && !(0x30 <= ch <= 0x39 || ch == 0x3b) {
            (bare, Some(Key::Escape))
        } else if last {
            if n < VT_SEQ_LEN {
                (done, csi_key(whole_chars(self.seq.skip(2)), ch))
            } else {
                (done, None)
            }
        } else if n < VT_SEQ_LEN {
            (longer, None)
        } else {
            (self, None)
        }
    }

    /// One character as it is read from the console: the one that waits is read
    /// first, and where it completes a key the new one is dropped.
    pub open spec fn record(self, ch: u16) -> (VtModel, Option<Key>) {
        let taken = VtModel { pending: VT_PENDING_NONE, ..self };
        if self.pending == VT_PENDING_NONE {
            taken.step(ch)
        } else {
            let (m, k) = taken.step(self.pending);
            if k is Some {
                (m, k)
            } else {
                m.step(ch)
            }
        }
    }
}

/// Puts the characters of escape sequences together again.
pub struct VtInput {
    seq: Vec<u16>,
    pending: u16,
}

impl View for VtInput {
    type V = VtModel;

    closed spec fn view(&self) -> VtModel {
        VtModel { seq: self.seq@, pending: self.pending }
    }
}

fn params_are(v: &Vec<u16>, w: &[u16]) -> (r: bool)
    ensures
        r == (v@ == w@),
{
    if v.len() != w.len() {
        return false;
    }
    let mut i: usize = 0;
    while i < v.len()
        invariant
            i <= v@.len(),
            v@.len() == w@.len(),
            forall|k: int| 0 <= k < i ==> v@[k] == w@[k],
        decreases v@.len() - i,
    {
        if v[i] != w[i] {
            return false;
        }
        i = i + 1;
    }
    assert(v@ =~= w@);
    true
}

/// The characters of `v[2..]`, without halves of surrogate pairs.
fn params_of(v: &Vec<u16>) -> (p: Vec<u16>)
    requires
        v@.len() >= 2,
    ensures
        p@ == whole_chars(v@.skip(2)),
{
    let ghost all = v@.skip(2);
    let mut p: Vec<u16> = Vec::new();
    let mut i: usize = 2;
    assert(all.take(0) =~= Seq::empty());
    while i < v.len()
        invariant
            2 <= i <= v@.len(),
            all == v@.skip(2),
            p@ == whole_chars(all.take(i - 2)),
        decreases v@.len() - i,
    {
        assert(all.take(i - 1).drop_last() =~= all.take(i - 2));
        assert(all.take(i - 1).last() == v@[i as int]);
        if !(0xd800 <= v[i] && v[i] <= 0xdfff) {
            p.push(v[i]);
        }
        i = i + 1;
    }
    assert(all.take(i - 2) =~= all);
    p
}

fn arrow_with_mods(v: &Vec<u16>, plain: Key, shift: Key, alt: Key) -> (k: Key)
    ensures
        k == arrow_of(v@, plain, shift, alt),
{
    let shifted: [u16; 3] = [0x31u16, 0x3bu16, 0x32u16];
    let alted: [u16; 3] = [0x31u16, 0x3bu16, 0x33u16];
    assert(shifted@ =~= seq![0x31u16, 0x3bu16, 0x32u16]);
    assert(alted@ =~= seq![0x31u16, 0x3bu16, 0x33u16]);
    if params_are(v, &shifted) {
        shift
    } else if params_are(v, &alted) {
        alt
    } else {
        plain
    }
}

/// The key of a complete sequence ESC `[` with the parameters `v` that ends in `ch`.
fn vt_finish_csi(v: &Vec<u16>, ch: u16) -> (k: Option<Key>)
    ensures
        k == csi_key(v@, ch),
{
    match ch {
        0x7e => {
            let f1: [u16; 2] = [0x31u16, 0x31u16];
            let delete: [u16; 1] = [0x33u16];
            let ctrl_delete: [u16; 3] = [0x33u16, 0x3bu16, 0x35u16];
            let page_up: [u16; 1] = [0x35u16];
            let page_down: [u16; 1] = [0x36u16];
            assert(f1@ =~= seq![0x31u16, 0x31u16]);
            assert(delete@ =~= seq![0x33u16]);
            assert(ctrl_delete@ =~= seq![0x33u16, 0x3bu16, 0x35u16]);
            assert(page_up@ =~= seq![0x35u16]);
            assert(page_down@ =~= seq![0x36u16]);
            if params_are(v, &f1) {
                Some(Key::F1)
            } else if params_are(v, &delete) {
                Some(Key::Delete)
            } else if params_are(v, &ctrl_delete) {
                Some(Key::CtrlDelete)
            } else if params_are(v, &page_up) {
                Some(Key::PageUp)
            } else if params_are(v, &page_down) {
                Some(Key::PageDown)
            } else {
                None
            }
        },
        0x41 => Some(arrow_with_mods(v, Key::Up, Key::ShiftUp, Key::AltUp)),
        0x42 => Some(arrow_with_mods(v, Key::Down, Key::ShiftDown, Key::AltDown)),
        0x43 => Some(arrow_with_mods(v, Key::Right, Key::ShiftRight, Key::AltRight)),
        0x44 => Some(arrow_with_mods(v, Key::Left, Key::ShiftLeft, Key::AltLeft)),
        0x48 => Some(Key::Home),
        0x46 => Some(Key::End),
        _ => None,
    }
}

impl VtInput {
    pub open spec fn wf(&self) -> bool {
        self@.wf()
    }

    pub fn new() -> (v: VtInput)
        ensures
            v@ == (VtModel { seq: Seq::empty(), pending: VT_PENDING_NONE }),
            v.wf(),
    {
        VtInput { seq: Vec::new(), pending: VT_PENDING_NONE }
    }

    /// The character that waits, `VT_PENDING_NONE` where none does.
    pub fn pending(&self) -> (ch: u16)
        ensures
            ch == self@.pending,
    {
        self.pending
    }

    /// Takes one character. Gives the key where it completes a sequence or stands
    /// for itself, and nothing while a sequence goes on.
    pub fn vt_feed(&mut self, ch: u16) -> (k: Option<Key>)
        requires
            old(self).wf(),
        ensures
            (final(self)@, k) == old(self)@.step(ch),
            final(self).wf(),
    {
        let n: usize = self.seq.len();
        if n == 0 {
            if ch == 0x1b {
                self.seq.push(ch);
                return None;
            }
            self.pending = VT_PENDING_NONE;
            if ch < 0x20 {
                return find_char_control(ch);
            }
            return match char::from_u32(ch as u32) {
                Some(c) => Some(Key::Char(c)),
                None => None,
            };
        }
        if n == 1 {
            if ch == 0x5b || ch == 0x4f {
                self.seq.push(ch);
                return None;
            }
            self.seq.clear();
            self.pending = ch;
            return Some(Key::Escape);
        }
        if self.seq[1] == 0x4f {
            self.seq.clear();
            let key = find_ss3_key(ch);
            if key.is_some() {
                return key;
            }
            self.pending = ch;
            return Some(Key::Escape);
        }
        let last = 0x40 <= ch && ch <= 0x7e;
        if n == 2 && !last && !((0x30 <= ch && ch <= 0x39) || ch == 0x3b) {
            self.seq.clear();
            self.pending = ch;
            return Some(Key::Escape);
        }
        if last {
            let key = if n < VT_SEQ_LEN {
                vt_finish_csi(&params_of(&self.seq), ch)
            } else {
                None
            };
            self.seq.clear();
            return key;
        }
        if n < VT_SEQ_LEN {
            self.seq.push(ch);
        }
        None
    }

    /// Takes one character as the console delivers it, after the one that waits.
    pub fn read_char(&mut self, ch: u16) -> (k: Option<Key>)
        requires
            old(self).wf(),
        ensures
            (final(self)@, k) == old(self)@.record(ch),
            final(self).wf(),
    {
        let pending: u16 = self.pending;
        self.pending = VT_PENDING_NONE;
        if pending != VT_PENDING_NONE {
            let key = self.vt_feed(pending);
            if key.is_some() {
                return key;
            }
        }
        self.vt_feed(ch)
    }
}

// ── Records ──────────────────────────────────────────────────────────────────

/// The modifier keys that are held at the moment.
#[derive(Clone, Copy, Debug, PartialEq, Eq, Structural)]
pub struct LiveKeys {
    pub ctrl: bool,
    pub alt: bool,
    pub shift: bool,
}

impl VtModel {
    /// A record of the console: the state behind it, and the key that it completes.
    /// Only the pointer and keys that go down count. A key is told by its virtual key
    /// code, or else by the character of the record.
    pub open spec fn read(self, rec: InputRecord, live: LiveKeys) -> (VtModel, Option<Key>) {
        let e = rec.event@;
        if rec.event_type == MOUSE_EVENT_TYPE {
            (self, Some(mouse_key(e, live.ctrl, live.alt)))
        } else if rec.event_type == KEY_EVENT_TYPE && dword_at(e, 0) != 0 {
            let held = dword_at(e, 12);
            let by_code = vk_key(
                word_at(e, 6),
                word_at(e, 10),
                held & (LEFT_CTRL | RIGHT_CTRL) != 0,
                held & (LEFT_ALT | RIGHT_ALT) != 0,
                live.shift,
                live.ctrl,
            );
            if by_code is Some {
                (self, by_code)
            } else {
                self.record(word_at(e, 10))
            }
        } else {
            (self, None)
        }
    }
}

impl VtInput {
    /// Takes a record of the console; gives the key that it completes.
    pub fn read_record(&mut self, rec: &InputRecord, live: LiveKeys) -> (k: Option<Key>)
        requires
            old(self).wf(),
        ensures
            (final(self)@, k) == old(self)@.read(*rec, live),
            final(self).wf(),
    {
        if is_mouse(rec) {
            return Some(decode_mouse(rec, live.ctrl, live.alt));
        }
        if !is_key_down(rec) {
            return None;
        }
        let ch: u16 = read_word(&rec.event, 10);
        let held: u32 = read_dword(&rec.event, 12);
        let key = key_of_vk(
            read_word(&rec.event, 6),
            ch,
            held & (LEFT_CTRL | RIGHT_CTRL) != 0,
            held & (LEFT_ALT | RIGHT_ALT) != 0,
            live.shift,
            live.ctrl,
        );
        if key.is_some() {
            return key;
        }
        self.read_char(ch)
    }
}

} // verus!

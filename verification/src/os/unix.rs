//! Keys out of the bytes of a terminal in raw mode.
//!
//! A key may take several bytes, and reading them is up to the caller: the
//! decoder is handed one byte at a time and says when a key is complete.
use vstd::prelude::*;
use crate::os::{HeldArrowKeys, Key};
use crate::terminal_emulator::is_continuation;
use crate::text::from_scalar;

verus! {

/// What the bytes so far have led to.
#[derive(Clone, Copy, Debug, PartialEq, Eq, Structural)]
pub enum ReadState {
    Start,
    /// An ESC was read. Where no byte follows soon, it was the key itself.
    Escaped,
    /// ESC `[` was read.
    Bracket,
    /// ESC `O` was read.
    Ss3,
    /// The parameters of a sequence are being read.
    Params,
    /// `left` more bytes of a character are due; `cp` is its number so far.
    Utf8 { left: u8, cp: u32 },
}

/// The decoder's state: `params` are the bytes of the sequence being read.
#[verifier::ext_equal]
pub struct ReaderModel {
    pub state: ReadState,
    pub params: Seq<u8>,
}

/// The key of a single control byte.
pub open spec fn control_key(b: u8) -> Option<Key> {
    match b {
        3 => Some(Key::CtrlC),
        4 => Some(Key::CtrlD),
        5 => Some(Key::CtrlE),
        6 => Some(Key::CtrlF),
        10 => Some(Key::CtrlJ),
        11 => Some(Key::CtrlK),
        12 => Some(Key::CtrlL),
        14 => Some(Key::CtrlN),
        16 => Some(Key::CtrlP),
        17 => Some(Key::CtrlQ),
        23 => Some(Key::CtrlW),
        22 => Some(Key::CtrlV),
        24 => Some(Key::CtrlX),
        26 => Some(Key::CtrlZ),
        20 => Some(Key::CtrlT),
        8 | 127 => Some(Key::Backspace),
        9 => Some(Key::Tab),
        13 => Some(Key::Enter),
        _ => None,
    }
}

fn find_control_key(b: u8) -> (k: Option<Key>)
    ensures
        k == control_key(b),
{
    match b {
        3 => Some(Key::CtrlC),
        4 => Some(Key::CtrlD),
        5 => Some(Key::CtrlE),
        6 => Some(Key::CtrlF),
        10 => Some(Key::CtrlJ),
        11 => Some(Key::CtrlK),
        12 => Some(Key::CtrlL),
        14 => Some(Key::CtrlN),
        16 => Some(Key::CtrlP),
        17 => Some(Key::CtrlQ),
        23 => Some(Key::CtrlW),
        22 => Some(Key::CtrlV),
        24 => Some(Key::CtrlX),
        26 => Some(Key::CtrlZ),
        20 => Some(Key::CtrlT),
        8 | 127 => Some(Key::Backspace),
        9 => Some(Key::Tab),
        13 => Some(Key::Enter),
        _ => None,
    }
}

/// The key of ESC `[` and one byte.
pub open spec fn bracket_key(b: u8) -> Option<Key> {
    match b {
        0x41 => Some(Key::Up),
        0x42 => Some(Key::Down),
        0x43 => Some(Key::Right),
        0x44 => Some(Key::Left),
        0x46 => Some(Key::End),
        0x48 => Some(Key::Home),
        _ => None,
    }
}

fn find_bracket_key(b: u8) -> (k: Option<Key>)
    ensures
        k == bracket_key(b),
{
    match b {
        0x41 => Some(Key::Up),
        0x42 => Some(Key::Down),
        0x43 => Some(Key::Right),
        0x44 => Some(Key::Left),
        0x46 => Some(Key::End),
        0x48 => Some(Key::Home),
        _ => None,
    }
}

/// The key of ESC and a letter.
pub open spec fn alt_key(b: u8) -> Option<Key> {
    match b {
        0x68 | 0x48 => Some(Key::AltH),
        0x72 | 0x52 => Some(Key::AltR),
        0x76 | 0x56 => Some(Key::AltV),
        0x6d | 0x4d => Some(Key::AltM),
        _ => None,
    }
}

fn find_alt_key(b: u8) -> (k: Option<Key>)
    ensures
        k == alt_key(b),
{
    match b {
        0x68 | 0x48 => Some(Key::AltH),
        0x72 | 0x52 => Some(Key::AltR),
        0x76 | 0x56 => Some(Key::AltV),
        0x6d | 0x4d => Some(Key::AltM),
        _ => None,
    }
}

/// The arrow with Alt that a letter stands for.
pub open spec fn alt_arrow(b: u8) -> Option<Key> {
    match b {
        0x41 => Some(Key::AltUp),
        0x42 => Some(Key::AltDown),
        0x43 => Some(Key::AltRight),
        0x44 => Some(Key::AltLeft),
        _ => None,
    }
}

fn find_alt_arrow(b: u8) -> (k: Option<Key>)
    ensures
        k == alt_arrow(b),
{
    match b {
        0x41 => Some(Key::AltUp),
        0x42 => Some(Key::AltDown),
        0x43 => Some(Key::AltRight),
        0x44 => Some(Key::AltLeft),
        _ => None,
    }
}

/// The arrow with Shift that a letter stands for.
pub open spec fn shift_arrow(b: u8) -> Option<Key> {
    match b {
        0x41 => Some(Key::ShiftUp),
        0x42 => Some(Key::ShiftDown),
        0x43 => Some(Key::ShiftRight),
        0x44 => Some(Key::ShiftLeft),
        _ => None,
    }
}

fn find_shift_arrow(b: u8) -> (k: Option<Key>)
    ensures
        k == shift_arrow(b),
{
    match b {
        0x41 => Some(Key::ShiftUp),
        0x42 => Some(Key::ShiftDown),
        0x43 => Some(Key::ShiftRight),
        0x44 => Some(Key::ShiftLeft),
        _ => None,
    }
}

/// The key of ESC `[`, the parameters `p` and `~`.
pub open spec fn tilde_key(p: Seq<u8>) -> Option<Key> {
    if p == seq![0x33u8] {
        Some(Key::Delete)
    } else if p == seq![0x33u8, 0x3bu8, 0x35u8] {
        Some(Key::CtrlDelete)
    } else if p == seq![0x35u8] {
        Some(Key::PageUp)
    } else if p == seq![0x36u8] {
        Some(Key::PageDown)
    } else if p == seq![0x31u8, 0x31u8] {
        Some(Key::F1)
    } else {
        None
    }
}

/// The key of ESC `[`, the parameters `p` and a capital letter.
pub open spec fn letter_key(p: Seq<u8>, b: u8) -> Option<Key> {
    if p == seq![0x31u8, 0x3bu8, 0x33u8] || p == seq![0x33u8] {
        alt_arrow(b)
    } else if p == seq![0x31u8, 0x3bu8, 0x32u8] {
        shift_arrow(b)
    } else {
        None
    }
}

/// The bytes that follow the first byte of a character, and the bits of its
/// number that the first byte holds.
pub open spec fn utf8_start(b: u8) -> Option<(u8, u32)> {
    if 0xc2 <= b <= 0xdf {
        Some((1u8, (b % 32) as u32))
    } else if 0xe0 <= b <= 0xef {
        Some((2u8, (b % 16) as u32))
    } else if 0xf0 <= b <= 0xf4 {
        Some((3u8, (b % 8) as u32))
    } else {
        None
    }
}

/// The key of the character numbered `cp`: controls are no keys.
pub open spec fn char_key(cp: u32) -> Option<Key> {
    match from_scalar(cp) {
        Some(c) => if c < ' ' || 0x7f <= c as u32 <= 0x9f {
            None
        } else {
            Some(Key::Char(c))
        },
        None => None,
    }
}

impl ReaderModel {
    pub open spec fn at(self, state: ReadState) -> ReaderModel {
        ReaderModel { state, ..self }
    }

    pub open spec fn wf(self) -> bool {
        match self.state {
            ReadState::Utf8 { left, cp } => 1 <= left <= 3 && (left == 3 ==> cp < 8) && (left == 2
                ==> cp < 512) && (left == 1 ==> cp < 32768),
            _ => true,
        }
    }

    /// The first byte of a key: the state after it, and the key that it completes.
    pub open spec fn started(self, b: u8) -> (ReaderModel, Option<Key>) {
        if b == 27 {
            (self.at(ReadState::Escaped), None)
        } else if control_key(b) is Some {
            (self, control_key(b))
        } else if 0x20 <= b <= 0x7e {
            (self, Some(Key::Char(b as char)))
        } else {
            match utf8_start(b) {
                Some((left, cp)) => (self.at(ReadState::Utf8 { left, cp }), None),
                None => (self, None),
            }
        }
    }

    /// One byte: the state after it, and the key that it completes. What follows
    /// ESC `O` is read as if nothing stood before it, but for the `P` of F1.
    pub open spec fn step(self, b: u8) -> (ReaderModel, Option<Key>) {
        match self.state {
            ReadState::Start => self.started(b),
            ReadState::Escaped => {
                if b == 0x5b {
                    (self.at(ReadState::Bracket), None)
                } else if b == 0x4f {
                    (self.at(ReadState::Ss3), None)
                } else {
                    (self.at(ReadState::Start), alt_key(b))
                }
            },
            ReadState::Bracket => {
                if 0x30 <= b <= 0x39 {
                    (ReaderModel { state: ReadState::Params, params: seq![b] }, None)
                } else {
                    (self.at(ReadState::Start), bracket_key(b))
                }
            },
            ReadState::Ss3 => {
                if b == 0x50 {
                    (self.at(ReadState::Start), Some(Key::F1))
                } else {
                    self.at(ReadState::Start).started(b)
                }
            },
            ReadState::Params => {
                let key = if b == 0x7e {
                    tilde_key(self.params)
                } else if 0x41 <= b <= 0x5a {
                    letter_key(self.params, b)
                } else {
                    None
                };
                if key is Some {
                    (self.at(ReadState::Start), key)
                } else if b == 0x7e || 0x41 <= b <= 0x5a || 0x61 <= b <= 0x7a {
                    (self, None)
                } else {
                    (ReaderModel { params: self.params.push(b), ..self }, None)
                }
            },
            ReadState::Utf8 { left, cp } => {
                if !is_continuation(b) {
                    (self.at(ReadState::Start), None)
                } else if left > 1 {
                    (
                        self.at(
                            ReadState::Utf8 {
                                left: (left - 1) as u8,
                                cp: (cp * 64 + b % 64) as u32,
                            },
                        ),
                        None,
                    )
                } else {
                    (self.at(ReadState::Start), char_key((cp * 64 + b % 64) as u32))
                }
            },
        }
    }
}

/// Decodes the bytes of the input, one at a time.
pub struct KeyReader {
    state: ReadState,
    params: Vec<u8>,
}

impl View for KeyReader {
    type V = ReaderModel;

    closed spec fn view(&self) -> ReaderModel {
        ReaderModel { state: self.state, params: self.params@ }
    }
}

fn is_bytes(v: &Vec<u8>, w: &[u8]) -> (r: bool)
    ensures
        r == (v@ == w@),
{
    if v.len() != w.len() {
        return false;
    }
    let mut i: usize = 0;
    while i < v.len()
        invariant
            i <= v@.len(),
            v@.len() == w@.len(),
            forall|k: int| 0 <= k < i ==> v@[k] == w@[k],
        decreases v@.len() - i,
    {
        if v[i] != w[i] {
            return false;
        }
        i = i + 1;
    }
    assert(v@ =~= w@);
    true
}

fn find_tilde_key(p: &Vec<u8>) -> (k: Option<Key>)
    ensures
        k == tilde_key(p@),
{
    let delete: [u8; 1] = [0x33];
    let ctrl_delete: [u8; 3] = [0x33, 0x3b, 0x35];
    let page_up: [u8; 1] = [0x35];
    let page_down: [u8; 1] = [0x36];
    let f1: [u8; 2] = [0x31, 0x31];
    assert(delete@ =~= seq![0x33u8]);
    assert(ctrl_delete@ =~= seq![0x33u8, 0x3bu8, 0x35u8]);
    assert(page_up@ =~= seq![0x35u8]);
    assert(page_down@ =~= seq![0x36u8]);
    assert(f1@ =~= seq![0x31u8, 0x31u8]);
    if is_bytes(p, &delete) {
        Some(Key::Delete)
    } else if is_bytes(p, &ctrl_delete) {
        Some(Key::CtrlDelete)
    } else if is_bytes(p, &page_up) {
        Some(Key::PageUp)
    } else if is_bytes(p, &page_down) {
        Some(Key::PageDown)
    } else if is_bytes(p, &f1) {
        Some(Key::F1)
    } else {
        None
    }
}

fn find_letter_key(p: &Vec<u8>, b: u8) -> (k: Option<Key>)
    ensures
        k == letter_key(p@, b),
{
    let alt: [u8; 3] = [0x31, 0x3b, 0x33];
    let short: [u8; 1] = [0x33];
    let shift: [u8; 3] = [0x31, 0x3b, 0x32];
    assert(alt@ =~= seq![0x31u8, 0x3bu8, 0x33u8]);
    assert(short@ =~= seq![0x33u8]);
    assert(shift@ =~= seq![0x31u8, 0x3bu8, 0x32u8]);
    if is_bytes(p, &alt) || is_bytes(p, &short) {
        find_alt_arrow(b)
    } else if is_bytes(p, &shift) {
        find_shift_arrow(b)
    } else {
        None
    }
}

fn find_char_key(cp: u32) -> (k: Option<Key>)
    ensures
        k == char_key(cp),
{
    match char::from_u32(cp) {
        Some(c) => {
            if c < ' ' || (0x7f <= c as u32 && c as u32 <= 0x9f) {
                None
            } else {
                Some(Key::Char(c))
            }
        },
        None => None,
    }
}

impl KeyReader {
    pub open spec fn wf(&self) -> bool {
        self@.wf()
    }

    pub fn new() -> (r: KeyReader)
        ensures
            r@ == (ReaderModel { state: ReadState::Start, params: Seq::empty() }),
            r.wf(),
    {
        KeyReader { state: ReadState::Start, params: Vec::new() }
    }

    /// Whether an ESC was read last. The caller then waits a moment: where no byte
    /// comes, `escape_alone` gives the key.
    pub fn after_escape(&self) -> (r: bool)
        ensures
            r == (self@.state is Escaped),
    {
        match self.state {
            ReadState::Escaped => true,
            _ => false,
        }
    }

    /// The ESC that was read last was the Escape key.
    pub fn escape_alone(&mut self) -> (k: Key)
        requires
            old(self)@.state is Escaped,
        ensures
            k == Key::Escape,
            final(self)@ == old(self)@.at(ReadState::Start),
            final(self).wf(),
    {
        self.state = ReadState::Start;
        Key::Escape
    }

    /// Takes the first byte of a key.
    fn start(&mut self, b: u8) -> (k: Option<Key>)
        requires
            old(self)@.state is Start,
        ensures
            (final(self)@, k) == old(self)@.started(b),
            final(self).wf(),
    {
        if b == 27 {
            self.state = ReadState::Escaped;
            return None;
        }
        let control = find_control_key(b);
        if control.is_some() {
            return control;
        }
        if 0x20 <= b && b <= 0x7e {
            return Some(Key::Char(b as char));
        }
        if 0xc2 <= b && b <= 0xdf {
            self.state = ReadState::Utf8 { left: 1, cp: (b % 32) as u32 };
        } else if 0xe0 <= b && b <= 0xef {
            self.state = ReadState::Utf8 { left: 2, cp: (b % 16) as u32 };
        } else if 0xf0 <= b && b <= 0xf4 {
            self.state = ReadState::Utf8 { left: 3, cp: (b % 8) as u32 };
        }
        None
    }

    /// Takes one byte; gives the key that it completes.
    pub fn feed(&mut self, b: u8) -> (k: Option<Key>)
        requires
            old(self).wf(),
        ensures
            (final(self)@, k) == old(self)@.step(b),
            final(self).wf(),
    {
        match self.state {
            ReadState::Start => self.start(b),
            ReadState::Escaped => {
                if b == 0x5b {
                    self.state = ReadState::Bracket;
                    None
                } else if b == 0x4f {
                    self.state = ReadState::Ss3;
                    None
                } else {
                    self.state = ReadState::Start;
                    find_alt_key(b)
                }
            },
            ReadState::Bracket => {
                if 0x30 <= b && b <= 0x39 {
                    self.state = ReadState::Params;
                    let mut p: Vec<u8> = Vec::new();
                    p.push(b);
                    assert(p@ =~= seq![b]);
                    self.params = p;
                    None
                } else {
                    self.state = ReadState::Start;
                    find_bracket_key(b)
                }
            },
            ReadState::Ss3 => {
                self.state = ReadState::Start;
                if b == 0x50 {
                    Some(Key::F1)
                } else {
                    self.start(b)
                }
            },
            ReadState::Params => {
                let key = if b == 0x7e {
                    find_tilde_key(&self.params)
                } else if 0x41 <= b && b <= 0x5a {
                    find_letter_key(&self.params, b)
                } else {
                    None
                };
                if key.is_some() {
                    self.state = ReadState::Start;
                    return key;
                }
                if !(b == 0x7e || (0x41 <= b && b <= 0x5a) || (0x61 <= b && b <= 0x7a)) {
                    self.params.push(b);
                }
                None
            },
            ReadState::Utf8 { left, cp } => {
                if !(0x80 <= b && b < 0xc0) {
                    self.state = ReadState::Start;
                    return None;
                }
                let next: u32 = cp * 64 + (b % 64) as u32;
                if left > 1 {
                    self.state = ReadState::Utf8 { left: left - 1, cp: next };
                    None
                } else {
                    self.state = ReadState::Start;
                    find_char_key(next)
                }
            },
        }
    }
}

// ── Held arrow keys ──────────────────────────────────────────────────────────

/// How long an arrow key counts as held after the last of them was read.
pub const HELD_MILLIS: u64 = 500;

/// The arrow keys read lately: a terminal does not report when one is let go.
#[derive(Clone, Copy, Debug, PartialEq, Eq, Structural)]
pub struct ArrowMemory {
    pub held: HeldArrowKeys,
    /// When the last one was read, in milliseconds.
    pub last: Option<u64>,
}

impl ArrowMemory {
    pub open spec fn empty() -> ArrowMemory {
        ArrowMemory {
            held: HeldArrowKeys { up: false, down: false, left: false, right: false },
            last: None,
        }
    }

    /// With a key that was read at `now`.
    pub open spec fn with(self, key: Key, now: u64) -> ArrowMemory {
        match key {
            Key::Up => ArrowMemory {
                held: HeldArrowKeys { up: true, ..self.held },
                last: Some(now),
            },
            Key::Down => ArrowMemory {
                held: HeldArrowKeys { down: true, ..self.held },
                last: Some(now),
            },
            Key::Left => ArrowMemory {
                held: HeldArrowKeys { left: true, ..self.held },
                last: Some(now),
            },
            Key::Right => ArrowMemory {
                held: HeldArrowKeys { right: true, ..self.held },
                last: Some(now),
            },
            _ => self,
        }
    }

    /// What is left at `now`: nothing once the last key is too long ago.
    pub open spec fn at(self, now: u64) -> ArrowMemory {
        match self.last {
            Some(t) => if now - t > HELD_MILLIS {
                ArrowMemory::empty()
            } else {
                self
            },
            None => self,
        }
    }

    pub fn new() -> (m: ArrowMemory)
        ensures
            m == ArrowMemory::empty(),
    {
        ArrowMemory { held: HeldArrowKeys::default(), last: None }
    }

    /// Takes a key that was read at `now`.
    pub fn note(&mut self, key: Key, now: u64)
        ensures
            *final(self) == old(self).with(key, now),
    {
        match key {
            Key::Up => self.held.up = true,
            Key::Down => self.held.down = true,
            Key::Left => self.held.left = true,
            Key::Right => self.held.right = true,
            _ => return,
        }
        self.last = Some(now);
    }

    /// The arrow keys that count as held at `now`.
    pub fn held_arrow_keys(&mut self, now: u64) -> (h: HeldArrowKeys)
        ensures
            *final(self) == old(self).at(now),
            h == old(self).at(now).held,
    {
        match self.last {
            Some(t) => {
                if now > t && now - t > HELD_MILLIS {
                    self.held = HeldArrowKeys::default();
                    self.last = None;
                }
            },
            None => {},
        }
        self.held
    }
}

} // verus!

//! Input as it comes from consoles: records, characters and bytes.
use manto::os::unix::{ArrowMemory, KeyReader};
use manto::os::windows::{
    decode_mouse, is_key_down, is_mouse, InputRecord, LiveKeys, VtInput,
    FROM_LEFT_1ST_BUTTON_PRESSED, KEY_EVENT_TYPE, LEFT_CTRL, MOUSE_EVENT_TYPE, MOUSE_MOVED,
    MOUSE_WHEELED,
};
use manto::os::{HeldArrowKeys, Key, MouseAction, MouseButton};

fn mouse_record(x: i16, y: i16, button: u32, ctrl: u32, flags: u32) -> InputRecord {
    let mut event = [0u8; 16];
    event[0..2].copy_from_slice(&x.to_le_bytes());
    event[2..4].copy_from_slice(&y.to_le_bytes());
    event[4..8].copy_from_slice(&button.to_le_bytes());
    event[8..12].copy_from_slice(&ctrl.to_le_bytes());
    event[12..16].copy_from_slice(&flags.to_le_bytes());
    InputRecord { event_type: MOUSE_EVENT_TYPE, event }
}

fn vt_seqs() -> Vec<(Vec<u16>, Key)> {
    vec![
        (vec![0x1B, b'O' as u16, b'P' as u16], Key::F1),
        (
            vec![0x1B, b'[' as u16, b'1' as u16, b'1' as u16, b'~' as u16],
            Key::F1,
        ),
        (vec![0x1B, b'[' as u16, b'A' as u16], Key::Up),
        (
            vec![0x1B, b'[' as u16, b'1' as u16, b';' as u16, b'2' as u16, b'A' as u16],
            Key::ShiftUp,
        ),
        (
            vec![0x1B, b'[' as u16, b'1' as u16, b';' as u16, b'3' as u16, b'D' as u16],
            Key::AltLeft,
        ),
        (
            vec![0x1B, b'[' as u16, b'5' as u16, b'~' as u16],
            Key::PageUp,
        ),
        (vec![0x1B, b'[' as u16, b'F' as u16], Key::End),
        (vec![0x1B, b'O' as u16, b'A' as u16], Key::Up),
    ]
}

#[test]
fn vt_feed_reassembles_sequences() {
    for (seq, expected) in vt_seqs() {
        let mut vt = VtInput::new();
        for (i, &ch) in seq.iter().enumerate() {
            let key = vt.vt_feed(ch);
            if i + 1 == seq.len() {
                assert_eq!(key, Some(expected), "seq {seq:?} must end on {expected:?}");
            } else {
                assert!(
                    key.is_none(),
                    "seq {seq:?} must not complete early ({key:?})"
                );
            }
        }
    }
}

#[test]
fn vt_feed_plain_char_and_lone_escape() {
    let mut vt = VtInput::new();
    assert_eq!(vt.vt_feed(b'a' as u16), Some(Key::Char('a')));
    assert_eq!(vt.vt_feed(0x08), Some(Key::Backspace));
    assert_eq!(vt.vt_feed(0x1B), None);
    assert_eq!(vt.vt_feed(b'x' as u16), Some(Key::Escape));
    assert_eq!(vt.pending(), b'x' as u16);
    let mut vt = VtInput::new();
    assert_eq!(vt.vt_feed(0x01), None);
}

#[test]
fn decode_mouse_left_press() {
    let rec = mouse_record(5, 3, FROM_LEFT_1ST_BUTTON_PRESSED, 0, 0);
    let Key::Mouse(ev) = decode_mouse(&rec, false, false) else {
        panic!("expected mouse")
    };
    assert_eq!(ev.x, 6);
    assert_eq!(ev.y, 4);
    assert_eq!(ev.kind, MouseAction::Press);
    assert_eq!(ev.button, MouseButton::Left);
}

#[test]
fn decode_mouse_release_and_wheel() {
    let rec = mouse_record(2, 2, 0, 0, MOUSE_MOVED);
    let Key::Mouse(ev) = decode_mouse(&rec, false, false) else {
        panic!()
    };
    assert_eq!(ev.kind, MouseAction::Move);

    let rec = mouse_record(2, 2, 1 << 16, 0, MOUSE_WHEELED);
    let Key::Mouse(ev) = decode_mouse(&rec, false, false) else {
        panic!()
    };
    assert_eq!(ev.kind, MouseAction::Press);
    assert_eq!(ev.button, MouseButton::WheelUp);

    let rec = mouse_record(2, 2, 0, 0, 0);
    let Key::Mouse(ev) = decode_mouse(&rec, false, false) else {
        panic!()
    };
    assert_eq!(ev.kind, MouseAction::Release);
}

#[test]
fn decode_mouse_ignores_key_records() {
    let mut event = [0u8; 16];
    event[0..4].copy_from_slice(&1i32.to_le_bytes());
    event[10..12].copy_from_slice(&('a' as u16).to_le_bytes());
    let rec = InputRecord { event_type: KEY_EVENT_TYPE, event };
    assert!(!is_mouse(&rec));
    assert!(is_key_down(&rec));
}

fn char_record(ch: u16) -> InputRecord {
    let mut event = [0u8; 16];
    event[0..4].copy_from_slice(&1i32.to_le_bytes());
    event[10..12].copy_from_slice(&ch.to_le_bytes());
    InputRecord { event_type: KEY_EVENT_TYPE, event }
}

fn vk_record(vk: u16, ctrl: u32) -> InputRecord {
    let mut event = [0u8; 16];
    event[0..4].copy_from_slice(&1i32.to_le_bytes());
    event[6..8].copy_from_slice(&vk.to_le_bytes());
    event[10..12].copy_from_slice(&('1' as u16).to_le_bytes());
    event[12..16].copy_from_slice(&ctrl.to_le_bytes());
    InputRecord { event_type: KEY_EVENT_TYPE, event }
}

fn read_records(recs: &[InputRecord]) -> Vec<Key> {
    let live = LiveKeys { ctrl: false, alt: false, shift: false };
    let mut input = VtInput::new();
    recs.iter().filter_map(|r| input.read_record(r, live)).collect()
}

#[test]
fn read_key_decodes_injected_vt_f1_records() {
    let recs = [
        char_record(0x1B),
        char_record(b'O' as u16),
        char_record(b'P' as u16),
    ];
    assert_eq!(read_records(&recs)[0], Key::F1, "ESC O P records must decode to F1");
}

#[test]
fn read_key_decodes_injected_ctrl_numpad_records() {
    let keys = read_records(&[vk_record(0x61, LEFT_CTRL), vk_record(0x64, LEFT_CTRL)]);
    assert_eq!(keys[0], Key::Ctrl1, "Ctrl+Numpad1 must decode to Ctrl1");
    assert_eq!(keys[1], Key::Ctrl4, "Ctrl+Numpad4 must decode to Ctrl4");
}

#[test]
fn the_pointer_and_plain_keys_are_read_from_records() {
    let press = mouse_record(5, 3, FROM_LEFT_1ST_BUTTON_PRESSED, 0, 0);
    let mut up = char_record('a' as u16);
    up.event[0] = 0;
    let keys = read_records(&[press, up, char_record('a' as u16), vk_record(0x0d, 0)]);
    assert!(matches!(keys[0], Key::Mouse(ev) if ev.x == 6));
    assert_eq!(keys[1..], [Key::Char('a'), Key::Enter]);
}

fn read(bytes: &[u8]) -> Vec<Key> {
    let mut reader = KeyReader::new();
    let mut keys = Vec::new();
    for b in bytes {
        if let Some(k) = reader.feed(*b) {
            keys.push(k);
        }
    }
    if reader.after_escape() {
        keys.push(reader.escape_alone());
    }
    keys
}

#[test]
fn bytes_of_a_unix_terminal_are_keys() {
    assert_eq!(read(b"a"), vec![Key::Char('a')]);
    assert_eq!(read("é".as_bytes()), vec![Key::Char('é')]);
    assert_eq!(read(b"\x1b[A"), vec![Key::Up]);
    assert_eq!(read(b"\x1b"), vec![Key::Escape]);
    assert_eq!(read(b"\r"), vec![Key::Enter]);
    assert_eq!(read(b"\x14"), vec![Key::CtrlT]);
}

#[test]
fn the_help_key_is_read() {
    assert_eq!(read(b"\x1bOP"), vec![Key::F1]);
    assert_eq!(read(b"\x1b[11~"), vec![Key::F1]);
    assert_eq!(read(b"\x1bm"), vec![Key::AltM]);
    assert_eq!(read(b"\x1b[1;2A"), vec![Key::ShiftUp]);
    assert_eq!(read(b"\x1b[3;5~"), vec![Key::CtrlDelete]);
}

#[test]
fn an_arrow_key_counts_as_held_for_a_while() {
    let mut m = ArrowMemory::new();
    m.note(Key::Up, 1000);
    m.note(Key::Char('x'), 1100);
    assert!(m.held_arrow_keys(1500).up);
    assert_eq!(m.held_arrow_keys(1501), HeldArrowKeys::default());
    assert!(!m.held_arrow_keys(1501).up);
}

#[test]
fn what_follows_escape_o_is_read_afresh() {
    assert_eq!(read(b"\x1bOA"), vec![Key::Char('A')]);
    assert_eq!(read(b"\x1bO\r"), vec![Key::Enter]);
    assert_eq!(read(b"\x1bO\x1b[A"), vec![Key::Up]);
    assert_eq!(read("\x1bOé".as_bytes()), vec![Key::Char('é')]);
}

#[test]
fn halves_of_surrogate_pairs_are_no_parameters() {
    let mut vt = VtInput::new();
    for ch in [0x1B, b'[' as u16, b'1' as u16, 0xD800, b'1' as u16] {
        assert_eq!(vt.vt_feed(ch), None);
    }
    assert_eq!(vt.vt_feed(b'~' as u16), Some(Key::F1));
}

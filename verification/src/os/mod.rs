//! Input as values: keys, the pointer's events, and how raw input is decoded
//! into them.
use vstd::prelude::*;

pub mod read_back;
pub mod unix;
pub mod windows;

verus! {

/// One key press, or one event of the pointer.
#[derive(Clone, Copy, Debug, PartialEq, Eq, Structural)]
pub enum Key {
    Char(char),
    Up,
    Down,
    Left,
    Right,
    ShiftUp,
    ShiftDown,
    ShiftLeft,
    ShiftRight,
    Tab,
    Enter,
    Backspace,
    Delete,
    Escape,
    End,
    Home,
    F1,
    PageUp,
    PageDown,
    Ctrl1,
    Ctrl2,
    Ctrl3,
    Ctrl4,
    AltUp,
    AltDown,
    AltLeft,
    AltRight,
    CtrlDelete,
    CtrlC,
    CtrlD,
    CtrlE,
    CtrlF,
    CtrlH,
    CtrlJ,
    CtrlK,
    CtrlL,
    CtrlN,
    CtrlP,
    CtrlQ,
    CtrlW,
    CtrlV,
    CtrlX,
    CtrlZ,
    AltH,
    AltR,
    AltV,
    AltM,
    CtrlEnter,
    CtrlT,
    CtrlM,
    Mouse(MouseEvent),
}

/// The arrow keys that are held down.
#[derive(Clone, Copy, Debug, PartialEq, Eq, Structural)]
pub struct HeldArrowKeys {
    pub up: bool,
    pub down: bool,
    pub left: bool,
    pub right: bool,
}

impl Default for HeldArrowKeys {
    fn default() -> (h: HeldArrowKeys)
        ensures
            h == (HeldArrowKeys { up: false, down: false, left: false, right: false }),
    {
        HeldArrowKeys { up: false, down: false, left: false, right: false }
    }
}

#[derive(Clone, Copy, Debug, PartialEq, Eq, Structural)]
pub enum MouseButton {
    Left,
    Middle,
    Right,
    WheelUp,
    WheelDown,
}

#[derive(Clone, Copy, Debug, PartialEq, Eq, Structural)]
pub enum MouseAction {
    /// A button went down, or the wheel turned.
    Press,
    /// A button went up.
    Release,
    /// The pointer moved with no button held.
    Move,
    /// The pointer moved with a button held.
    Drag,
}

#[derive(Clone, Copy, Debug, PartialEq, Eq, Structural)]
pub struct MouseEvent {
    /// Column, counted from 1.
    pub x: u16,
    /// Row, counted from 1.
    pub y: u16,
    pub kind: MouseAction,
    /// The button or the wheel; `Left` where no button is meant.
    pub button: MouseButton,
    pub shift: bool,
    pub ctrl: bool,
    pub alt: bool,
}

} // verus!

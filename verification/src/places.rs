//! Where new windows stand, and what keys and durations are called.
use vstd::prelude::*;
use crate::app::terminal::key_code;
use crate::cmd::exit_text;
use crate::config::ctrl_named;
use crate::menu::MenuItemModel;
use crate::os::Key;
use crate::shell::{CommandStatus, TimerModel};
use crate::text::dec;
use crate::ui::window::Window;
use crate::wm::{help_place, input_cell, longest_label, menu_place, terminal_place};

verus! {

// ── Windows ──────────────────────────────────────────────────────────────────

/// A new terminal is half as wide as the screen and two thirds as high as what is above the
/// status bar, and stands in the middle of it.
pub proof fn lemma_terminal_in_the_middle(w: u16, h: u16)
    requires
        w >= 60,
        h >= 16,
    ensures
        ({
            let t = terminal_place(w, h);
            let (left, right) = (t.position_x as int, w - t.position_x - t.width);
            let (above, below) = (t.position_y - 1, h - 3 - t.position_y - t.height);
            &&& t.width == w / 2
            &&& t.height == (h - 4) * 2 / 3
            &&& left <= right <= left + 1
            &&& above <= below <= above + 1
            &&& t.minimizable && t.closable && t.draggable && t.resizable
        }),
{
}

/// On a small screen a new terminal leaves three columns on either side free, and does not
/// reach the status bar.
pub proof fn lemma_terminal_on_small_screen(w: u16, h: u16)
    requires
        6 <= w <= 36,
        4 <= h <= 12,
    ensures
        ({
            let t = terminal_place(w, h);
            &&& t.width == w - 6 && t.position_x == 3
            &&& t.height == h - 4 && t.position_y == 1
        }),
{
}

/// The start menu stands on the status bar, at the left, and is three quarters as high as
/// what is above it; it is six columns wider than its longest entry.
pub proof fn lemma_menu_stands_on_bar(h: u16, items: Seq<MenuItemModel>)
    requires
        h >= 8,
        6 <= longest_label(items) <= 42,
    ensures
        ({
            let m = menu_place(h, items);
            &&& m.position_x == 2
            &&& m.height == (h - 4) * 3 / 4
            &&& m.position_y + m.height == h - 3
            &&& m.width == longest_label(items) + 6
            &&& !m.minimizable && !m.closable && !m.draggable && !m.resizable
        }),
{
}

proof fn lemma_label_fits(items: Seq<MenuItemModel>, i: int)
    requires
        0 <= i < items.len(),
    ensures
        items[i].label.len() <= longest_label(items),
    decreases items.len(),
{
    if i < items.len() - 1 {
        lemma_label_fits(items.drop_last(), i);
    }
}

/// Every entry of the start menu fits into its window, where none is longer than 42
/// characters.
pub proof fn lemma_entries_fit(h: u16, items: Seq<MenuItemModel>, i: int)
    requires
        0 <= i < items.len(),
        longest_label(items) <= 42,
    ensures
        items[i].label.len() + 6 <= menu_place(h, items).width,
{
    lemma_label_fits(items, i);
}

/// The help stands in the middle of the screen.
pub proof fn lemma_help_in_the_middle(w: u16, h: u16)
    requires
        w >= 100,
        h >= 10,
    ensures
        ({
            let t = help_place(w, h);
            let (left, right) = (t.position_x as int, w - t.position_x - t.width);
            &&& left <= right <= left + 1
            &&& 48 <= t.width <= 96
            &&& t.height == (if h - 4 < 24 {
                h - 4
            } else {
                24
            })
        }),
{
}

/// The pointer goes to the input of a terminal: its last row but the frame, behind the
/// frame and the four columns of the prompt.
pub proof fn lemma_input_cell(w: Window)
    requires
        w.width >= 8,
        w.height >= 5,
        w.content_w <= w.width - 2,
    ensures
        input_cell(w) == (w.position_x + 5, w.position_y + w.height - 2),
{
}

// ── Names ────────────────────────────────────────────────────────────────────

proof fn lemma_one_letter(c: char)
    ensures
        seq![c].len() == 1,
        seq![c][0] == c,
{
}

/// A letter behind `ctrl+` names the key that is sent as its place in the alphabet.
#[verifier::spinoff_prover]
pub proof fn lemma_ctrl_names(c: char)
    requires
        'a' <= c <= 'z',
        ctrl_named(seq![c]) is Some,
    ensures
        key_code(ctrl_named(seq![c])->0, 0x7f) == Some(seq![(c as u32 - 0x60) as u8]),
{
    reveal_strlit("1");
    reveal_strlit("2");
    reveal_strlit("3");
    reveal_strlit("4");
    reveal_strlit("c");
    reveal_strlit("d");
    reveal_strlit("e");
    reveal_strlit("f");
    reveal_strlit("h");
    reveal_strlit("j");
    reveal_strlit("k");
    reveal_strlit("l");
    reveal_strlit("n");
    reveal_strlit("p");
    reveal_strlit("q");
    reveal_strlit("w");
    reveal_strlit("v");
    reveal_strlit("x");
    reveal_strlit("z");
    reveal_strlit("t");
    reveal_strlit("delete");
    reveal_strlit("enter");
    let s = seq![c];
    lemma_one_letter(c);
    assert(s[0] == c);
}

/// The digits behind `ctrl+` are the keys that take a window to their desktop.
pub proof fn lemma_ctrl_digits()
    ensures
        ctrl_named(seq!['1']) == Some(Key::Ctrl1),
        ctrl_named(seq!['2']) == Some(Key::Ctrl2),
        ctrl_named(seq!['3']) == Some(Key::Ctrl3),
        ctrl_named(seq!['4']) == Some(Key::Ctrl4),
{
    reveal_strlit("1");
    reveal_strlit("2");
    reveal_strlit("3");
    reveal_strlit("4");
    assert("1"@ =~= seq!['1']);
    assert("2"@ =~= seq!['2']);
    assert("3"@ =~= seq!['3']);
    assert("4"@ =~= seq!['4']);
    assert(seq!['1'][0] == '1' && seq!['2'][0] == '2' && seq!['3'][0] == '3' && seq!['4'][0]
        == '4');
}

// ── Time and codes ───────────────────────────────────────────────────────────

/// Each second a timer prints how many seconds it has left; when none is left it is
/// complete.
pub proof fn lemma_timer_prints(m: TimerModel, n: u32)
    requires
        m.timer == Some(n),
        n > 0,
    ensures
        ({
            let t = m.ticked();
            &&& t.output_lines.len() == m.output_lines.len() + 1
            &&& t.output_lines.drop_last() == m.output_lines
            &&& n > 1 ==> t.output_lines.last() == dec((n - 1) as nat) + seq!['s'] && t.timer
                == Some((n - 1) as u32) && t.status == m.status
            &&& n == 1 ==> t.timer is None && t.status == CommandStatus::Complete
        }),
{
    reveal_strlit("s");
    assert("s"@ =~= seq!['s']);
    assert(m.ticked().output_lines.drop_last() =~= m.output_lines);
}

/// How a command ended that printed nothing: its code, where it is not 0.
pub proof fn lemma_exit_text(code: i32)
    ensures
        code == 0 ==> exit_text(code) == "complete"@,
        code > 0 ==> exit_text(code) == seq!['e', 'x', 'i', 't', ' '] + dec(code as nat),
        code < 0 ==> exit_text(code) == seq!['e', 'x', 'i', 't', ' ', '-'] + dec((-code) as nat),
{
    reveal_strlit("exit ");
    reveal_strlit("exit -");
    assert("exit "@ =~= seq!['e', 'x', 'i', 't', ' ']);
    assert("exit -"@ =~= seq!['e', 'x', 'i', 't', ' ', '-']);
}

} // verus!

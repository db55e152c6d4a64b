//! The help window: a crib sheet of how to use the desktop, wrapped to the window.
use vstd::prelude::*;
use vstd::string::*;
use crate::num::max_len;
use crate::text::{chars_of, push_line, push_text, string_of, texts};

verus! {

/// The open help window: its lines as they are, and how many rows have scrolled
/// off its top.
pub struct HelpState {
    pub lines: Vec<String>,
    pub scroll: usize,
}

#[verifier::ext_equal]
pub struct HelpModel {
    pub lines: Seq<Seq<char>>,
    pub scroll: usize,
}

impl View for HelpState {
    type V = HelpModel;

    open spec fn view(&self) -> HelpModel {
        HelpModel { lines: texts(self.lines@), scroll: self.scroll }
    }
}

impl HelpState {
    pub fn new() -> (s: HelpState)
        ensures
            s@ == (HelpModel { lines: crib_sheet(), scroll: 0 }),
    {
        HelpState { lines: content(), scroll: 0 }
    }
}

// ── Wrapping ─────────────────────────────────────────────────────────────────

/// A line cut into rows of `width` characters; an empty line is one empty row.
pub open spec fn rows_of(line: Seq<char>, width: int) -> Seq<Seq<char>>
    decreases line.len(),
{
    if line.len() <= width || width <= 0 {
        seq![line]
    } else {
        seq![line.take(width)] + rows_of(line.skip(width), width)
    }
}

/// The rows of all lines.
pub open spec fn wrapped_rows(lines: Seq<Seq<char>>, width: int) -> Seq<Seq<char>>
    decreases lines.len(),
{
    if lines.len() == 0 {
        Seq::empty()
    } else {
        wrapped_rows(lines.drop_last(), width) + rows_of(lines.last(), width)
    }
}

/// How many rows a line of `len` characters takes.
pub open spec fn row_count(len: nat, width: nat) -> nat {
    if len == 0 {
        1
    } else {
        (len + width - 1) as nat / width
    }
}

/// How many rows all lines take.
pub open spec fn rows_count(lines: Seq<Seq<char>>, width: nat) -> nat
    decreases lines.len(),
{
    if lines.len() == 0 {
        0
    } else {
        rows_count(lines.drop_last(), width) + row_count(lines.last().len(), width)
    }
}

proof fn lemma_row_count(line: Seq<char>, width: nat)
    requires
        width >= 1,
    ensures
        rows_of(line, width as int).len() == row_count(line.len(), width),
    decreases line.len(),
{
    let n = line.len();
    if n == 0 {
    } else if n <= width {
        assert((n + width - 1) as nat / width == 1) by {
            vstd::arithmetic::div_mod::lemma_fundamental_div_mod_converse(
                n + width - 1,
                width as int,
                1,
                n - 1,
            );
        }
    } else {
        let rest = line.skip(width as int);
        lemma_row_count(rest, width);
        let a = n - width + width - 1;
        assert((n + width - 1) as nat / width == 1 + (n - 1) as nat / width) by {
            vstd::arithmetic::div_mod::lemma_div_plus_one(n - 1, width as int);
        }
    }
}

/// The number of rows is the number of rows that the wrapping gives.
pub proof fn lemma_rows_count(lines: Seq<Seq<char>>, width: nat)
    requires
        width >= 1,
    ensures
        wrapped_rows(lines, width as int).len() == rows_count(lines, width),
    decreases lines.len(),
{
    if lines.len() > 0 {
        lemma_rows_count(lines.drop_last(), width);
        lemma_row_count(lines.last(), width);
    }
}

/// All of it, row after row.
pub open spec fn flat(rows: Seq<Seq<char>>) -> Seq<char>
    decreases rows.len(),
{
    if rows.len() == 0 {
        Seq::empty()
    } else {
        rows[0] + flat(rows.drop_first())
    }
}

/// Wrapping loses nothing: the rows of a line joined are the line, and none is
/// longer than the width.
pub proof fn lemma_rows_of(line: Seq<char>, width: int)
    requires
        width >= 1,
    ensures
        flat(rows_of(line, width)) == line,
        forall|i: int|
            0 <= i < rows_of(line, width).len() ==> (#[trigger] rows_of(line, width)[i]).len()
                <= width,
    decreases line.len(),
{
    let rows = rows_of(line, width);
    if line.len() <= width {
        assert(rows.drop_first() =~= Seq::empty());
        assert(flat(rows.drop_first()) =~= Seq::empty());
        assert(flat(rows) =~= line);
    } else {
        let rest = line.skip(width);
        lemma_rows_of(rest, width);
        assert(rows.drop_first() =~= rows_of(rest, width));
        assert(line.take(width) + rest =~= line);
        assert forall|i: int| 0 <= i < rows.len() implies (#[trigger] rows[i]).len() <= width by {
            if i > 0 {
                assert(rows[i] == rows_of(rest, width)[i - 1]);
            }
        }
    }
}

/// How many rows the lines take once wrapped to `width` characters. What does not
/// fit the number is told as the largest one.
pub fn wrapped_count(lines: &[String], width: usize) -> (n: usize)
    ensures
        ({
            let all = rows_count(texts(lines@), max_len(width, 1) as nat);
            n == (if all <= usize::MAX {
                all
            } else {
                usize::MAX as nat
            })
        }),
{
    let w: usize = max_len(width, 1);
    let ghost all = texts(lines@);
    let mut n: usize = 0;
    let mut i: usize = 0;
    assert(all.take(0) =~= Seq::empty());
    while i < lines.len()
        invariant
            i <= lines@.len(),
            w >= 1,
            all == texts(lines@),
            ({
                let sum = rows_count(all.take(i as int), w as nat);
                n == (if sum <= usize::MAX {
                    sum
                } else {
                    usize::MAX as nat
                })
            }),
        decreases lines@.len() - i,
    {
        assert(all.take(i + 1).drop_last() =~= all.take(i as int));
        assert(all.take(i + 1).last() == lines@[i as int]@);
        let v = chars_of(lines[i].as_str());
        let len: usize = v.len();
        let rows: usize = if len == 0 {
            1
        } else {
            (len - 1) / w + 1
        };
        proof {
            if len > 0 {
                vstd::arithmetic::div_mod::lemma_div_plus_one(len - 1, w as int);
                assert((len + w - 1) as nat / w as nat == rows);
            }
        }
        n = n.saturating_add(rows);
        i = i + 1;
    }
    assert(all.take(i as int) =~= all);
    n
}

/// Appends the rows of a line.
pub fn push_rows(out: &mut Vec<String>, line: &str, width: usize)
    requires
        width >= 1,
    ensures
        texts(final(out)@) == texts(old(out)@) + rows_of(line@, width as int),
{
    let v = chars_of(line);
    let ghost done = texts(out@);
    let mut from: usize = 0;
    assert(v@.skip(0) =~= v@);
    while v.len() - from > width
        invariant
            from <= v@.len(),
            width >= 1,
            texts(out@) + rows_of(v@.skip(from as int), width as int) == done + rows_of(
                v@,
                width as int,
            ),
        decreases v@.len() - from,
    {
        let ghost rest = v@.skip(from as int);
        let ghost before = texts(out@);
        let row = string_of(&v, from, from + width);
        push_text(out, row);
        proof {
            assert(rest.take(width as int) =~= v@.subrange(from as int, from + width));
            assert(rest.skip(width as int) =~= v@.skip(from + width));
            assert(texts(out@) + rows_of(v@.skip(from + width), width as int) =~= before + (seq![
                rest.take(width as int),
            ] + rows_of(v@.skip(from + width), width as int)));
        }
        from = from + width;
    }
    let row = string_of(&v, from, v.len());
    let ghost before = texts(out@);
    push_text(out, row);
    proof {
        let rest = v@.skip(from as int);
        assert(v@.subrange(from as int, v@.len() as int) =~= rest);
        assert(texts(out@) =~= before + seq![rest]);
    }
}

/// The lines wrapped to `width` characters each.
pub fn wrapped(lines: &[String], width: usize) -> (out: Vec<String>)
    ensures
        texts(out@) == wrapped_rows(texts(lines@), max_len(width, 1) as int),
{
    let w: usize = max_len(width, 1);
    let ghost all = texts(lines@);
    let mut out: Vec<String> = Vec::new();
    let mut i: usize = 0;
    assert(all.take(0) =~= Seq::empty());
    assert(texts(out@) =~= Seq::empty());
    while i < lines.len()
        invariant
            i <= lines@.len(),
            w >= 1,
            all == texts(lines@),
            texts(out@) == wrapped_rows(all.take(i as int), w as int),
        decreases lines@.len() - i,
    {
        assert(all.take(i + 1).drop_last() =~= all.take(i as int));
        assert(all.take(i + 1).last() == lines@[i as int]@);
        push_rows(&mut out, lines[i].as_str(), w);
        i = i + 1;
    }
    assert(all.take(i as int) =~= all);
    out
}

// ── The crib sheet ───────────────────────────────────────────────────────────

pub open spec fn heading() -> Seq<Seq<char>> {
    seq![
        "MANTO  —  HOW TO USE"@,
        "─────────────────────"@,
        ""@,
    ]
}

fn push_heading(v: &mut Vec<String>)
    ensures
        texts(final(v)@) == texts(old(v)@) + heading(),
{
    push_line(v, "MANTO  —  HOW TO USE");
    push_line(v, "─────────────────────");
    push_line(v, "");
    assert(texts(v@) =~= texts(old(v)@) + heading());
}

pub open spec fn contexts() -> Seq<Seq<char>> {
    seq![
        "CONTEXTS"@,
        "  Normal         move the pointer, interact with windows"@,
        "  Typing         type into the dock shell (.> )"@,
        "  TerminalFocus  type inside a detached terminal"@,
        "  Moving         reposition the active window"@,
        "  Resizing       change the active window size"@,
        ""@,
    ]
}

fn push_contexts(v: &mut Vec<String>)
    ensures
        texts(final(v)@) == texts(old(v)@) + contexts(),
{
    push_line(v, "CONTEXTS");
    push_line(v, "  Normal         move the pointer, interact with windows");
    push_line(v, "  Typing         type into the dock shell (.> )");
    push_line(v, "  TerminalFocus  type inside a detached terminal");
    push_line(v, "  Moving         reposition the active window");
    push_line(v, "  Resizing       change the active window size");
    push_line(v, "");
    assert(texts(v@) =~= texts(old(v)@) + contexts());
}

pub open spec fn mouse() -> Seq<Seq<char>> {
    seq![
        "MOUSE  (toggle with Alt+M)"@,
        "  Left click         activate what is under the pointer"@,
        "  Click + drag       select a text box"@,
        "                     (Enter / Ctrl+C copies, Esc clears)"@,
        "  Drag title bar     move the window"@,
        "  Drag bottom-right  resize the window"@,
        "  Double-click title maximize / restore"@,
        "  Right click        raise the window under the pointer"@,
        "  Wheel              scroll terminals, the panel or the rail"@,
        ""@,
    ]
}

fn push_mouse(v: &mut Vec<String>)
    ensures
        texts(final(v)@) == texts(old(v)@) + mouse(),
{
    push_line(v, "MOUSE  (toggle with Alt+M)");
    push_line(v, "  Left click         activate what is under the pointer");
    push_line(v, "  Click + drag       select a text box");
    push_line(v, "                     (Enter / Ctrl+C copies, Esc clears)");
    push_line(v, "  Drag title bar     move the window");
    push_line(v, "  Drag bottom-right  resize the window");
    push_line(v, "  Double-click title maximize / restore");
    push_line(v, "  Right click        raise the window under the pointer");
    push_line(v, "  Wheel              scroll terminals, the panel or the rail");
    push_line(v, "");
    assert(texts(v@) =~= texts(old(v)@) + mouse());
}

pub open spec fn global_shortcuts() -> Seq<Seq<char>> {
    seq![
        "GLOBAL SHORTCUTS"@,
        "  Ctrl+T       open a new terminal window"@,
        "  Ctrl+W       close the active window"@,
        "  Ctrl+F       maximize / restore the active window"@,
        "  Ctrl+N/P     focus the next / previous window"@,
        "  Ctrl+X       minimize the active window"@,
        "  Ctrl+D       open / close the Start menu"@,
        "  Alt+M        toggle mouse input"@,
        "  Ctrl+H / F1  toggle this help window"@,
        "  Ctrl+1..4    move the active window to desktop 1-4"@,
        "  1..4         switch to desktop 1-4"@,
        "  Ctrl+Delete  quit Manto (saves the session)"@,
        ""@,
    ]
}

fn push_global_shortcuts(v: &mut Vec<String>)
    ensures
        texts(final(v)@) == texts(old(v)@) + global_shortcuts(),
{
    push_line(v, "GLOBAL SHORTCUTS");
    push_line(v, "  Ctrl+T       open a new terminal window");
    push_line(v, "  Ctrl+W       close the active window");
    push_line(v, "  Ctrl+F       maximize / restore the active window");
    push_line(v, "  Ctrl+N/P     focus the next / previous window");
    push_line(v, "  Ctrl+X       minimize the active window");
    push_line(v, "  Ctrl+D       open / close the Start menu");
    push_line(v, "  Alt+M        toggle mouse input");
    push_line(v, "  Ctrl+H / F1  toggle this help window");
    push_line(v, "  Ctrl+1..4    move the active window to desktop 1-4");
    push_line(v, "  1..4         switch to desktop 1-4");
    push_line(v, "  Ctrl+Delete  quit Manto (saves the session)");
    push_line(v, "");
    assert(texts(v@) =~= texts(old(v)@) + global_shortcuts());
}

pub open spec fn snap_and_split() -> Seq<Seq<char>> {
    seq![
        "SNAP AND SPLIT"@,
        "  Alt+Arrow           snap the window to a half"@,
        "  Alt+Arrow+other     snap to a quarter"@,
        "  Alt+V / Alt+H       split the terminal vertically / horizontally"@,
        "  Alt+R               enter resize mode for the active window"@,
        ""@,
    ]
}

fn push_snap_and_split(v: &mut Vec<String>)
    ensures
        texts(final(v)@) == texts(old(v)@) + snap_and_split(),
{
    push_line(v, "SNAP AND SPLIT");
    push_line(v, "  Alt+Arrow           snap the window to a half");
    push_line(v, "  Alt+Arrow+other     snap to a quarter");
    push_line(v, "  Alt+V / Alt+H       split the terminal vertically / horizontally");
    push_line(v, "  Alt+R               enter resize mode for the active window");
    push_line(v, "");
    assert(texts(v@) =~= texts(old(v)@) + snap_and_split());
}

pub open spec fn normal_mode() -> Seq<Seq<char>> {
    seq![
        "NORMAL MODE"@,
        "  Arrows        move the pointer"@,
        "  Home          move the pointer to the dock input"@,
        "  :             start typing in the dock"@,
        "  Space/Enter   activate what is under the pointer"@,
        "  Shift+Arrows  free screen text selection"@,
        "  Esc           clear the selection"@,
        ""@,
    ]
}

fn push_normal_mode(v: &mut Vec<String>)
    ensures
        texts(final(v)@) == texts(old(v)@) + normal_mode(),
{
    push_line(v, "NORMAL MODE");
    push_line(v, "  Arrows        move the pointer");
    push_line(v, "  Home          move the pointer to the dock input");
    push_line(v, "  :             start typing in the dock");
    push_line(v, "  Space/Enter   activate what is under the pointer");
    push_line(v, "  Shift+Arrows  free screen text selection");
    push_line(v, "  Esc           clear the selection");
    push_line(v, "");
    assert(texts(v@) =~= texts(old(v)@) + normal_mode());
}

pub open spec fn dock_shell() -> Seq<Seq<char>> {
    seq![
        "DOCK SHELL (.> )"@,
        "  Esc / End    leave typing mode"@,
        "  Ctrl+Enter   detach the dock into a terminal window"@,
        "  Up / Down    browse command history"@,
        "  Left / Right move the text cursor"@,
        "  Tab          autocomplete commands and paths"@,
        "  Enter        run the command"@,
        "  PageUp/Down  scroll the command panel"@,
        ""@,
    ]
}

fn push_dock_shell(v: &mut Vec<String>)
    ensures
        texts(final(v)@) == texts(old(v)@) + dock_shell(),
{
    push_line(v, "DOCK SHELL (.> )");
    push_line(v, "  Esc / End    leave typing mode");
    push_line(v, "  Ctrl+Enter   detach the dock into a terminal window");
    push_line(v, "  Up / Down    browse command history");
    push_line(v, "  Left / Right move the text cursor");
    push_line(v, "  Tab          autocomplete commands and paths");
    push_line(v, "  Enter        run the command");
    push_line(v, "  PageUp/Down  scroll the command panel");
    push_line(v, "");
    assert(texts(v@) =~= texts(old(v)@) + dock_shell());
}

pub open spec fn terminal_window() -> Seq<Seq<char>> {
    seq![
        "TERMINAL WINDOW"@,
        "  Esc / End    return to the desktop"@,
        "  Up / Down    command history"@,
        "  Left / Right move the text cursor"@,
        "  Tab          autocomplete"@,
        "  Enter        run the command"@,
        "  PageUp/Down  scroll the terminal output"@,
        "  #i app       run an interactive app (vim, python, shell...)"@,
        "  inside #i:   Ctrl+C interrupt, Ctrl+V paste, mouse forwarded"@,
        ""@,
    ]
}

fn push_terminal_window(v: &mut Vec<String>)
    ensures
        texts(final(v)@) == texts(old(v)@) + terminal_window(),
{
    push_line(v, "TERMINAL WINDOW");
    push_line(v, "  Esc / End    return to the desktop");
    push_line(v, "  Up / Down    command history");
    push_line(v, "  Left / Right move the text cursor");
    push_line(v, "  Tab          autocomplete");
    push_line(v, "  Enter        run the command");
    push_line(v, "  PageUp/Down  scroll the terminal output");
    push_line(v, "  #i app       run an interactive app (vim, python, shell...)");
    push_line(v, "  inside #i:   Ctrl+C interrupt, Ctrl+V paste, mouse forwarded");
    push_line(v, "");
    assert(texts(v@) =~= texts(old(v)@) + terminal_window());
}

pub open spec fn moving_mode() -> Seq<Seq<char>> {
    seq![
        "MOVING MODE"@,
        "  Arrows        move the window preview"@,
        "  Space / Enter confirm the new position"@,
        ""@,
    ]
}

fn push_moving_mode(v: &mut Vec<String>)
    ensures
        texts(final(v)@) == texts(old(v)@) + moving_mode(),
{
    push_line(v, "MOVING MODE");
    push_line(v, "  Arrows        move the window preview");
    push_line(v, "  Space / Enter confirm the new position");
    push_line(v, "");
    assert(texts(v@) =~= texts(old(v)@) + moving_mode());
}

pub open spec fn resize_mode() -> Seq<Seq<char>> {
    seq![
        "RESIZE MODE"@,
        "  Arrows        change the size preview"@,
        "  Space / Enter apply and exit"@,
        "  Esc           cancel"@,
        "  X/H width, Y/V height, then +/-/=/digits, Enter applies"@,
        ""@,
    ]
}

fn push_resize_mode(v: &mut Vec<String>)
    ensures
        texts(final(v)@) == texts(old(v)@) + resize_mode(),
{
    push_line(v, "RESIZE MODE");
    push_line(v, "  Arrows        change the size preview");
    push_line(v, "  Space / Enter apply and exit");
    push_line(v, "  Esc           cancel");
    push_line(v, "  X/H width, Y/V height, then +/-/=/digits, Enter applies");
    push_line(v, "");
    assert(texts(v@) =~= texts(old(v)@) + resize_mode());
}

pub open spec fn configuration() -> Seq<Seq<char>> {
    seq![
        "CONFIGURATION"@,
        "  ~/.manto/config.json  theme (0-2) + remappable shortcuts"@,
        "  ~/.manto/menu.json    Start menu entries"@,
    ]
}

fn push_configuration(v: &mut Vec<String>)
    ensures
        texts(final(v)@) == texts(old(v)@) + configuration(),
{
    push_line(v, "CONFIGURATION");
    push_line(v, "  ~/.manto/config.json  theme (0-2) + remappable shortcuts");
    push_line(v, "  ~/.manto/menu.json    Start menu entries");
    assert(texts(v@) =~= texts(old(v)@) + configuration());
}

/// The crib sheet, line by line.
pub open spec fn crib_sheet() -> Seq<Seq<char>> {
    heading() + contexts() + mouse() + global_shortcuts() + snap_and_split() + normal_mode() + dock_shell() + terminal_window() + moving_mode() + resize_mode() + configuration()
}

/// The crib sheet, line by line.
pub fn content() -> (v: Vec<String>)
    ensures
        texts(v@) == crib_sheet(),
{
    let mut v: Vec<String> = Vec::new();
    assert(texts(v@) =~= Seq::empty());
    push_heading(&mut v);
    push_contexts(&mut v);
    push_mouse(&mut v);
    push_global_shortcuts(&mut v);
    push_snap_and_split(&mut v);
    push_normal_mode(&mut v);
    push_dock_shell(&mut v);
    push_terminal_window(&mut v);
    push_moving_mode(&mut v);
    push_resize_mode(&mut v);
    push_configuration(&mut v);
    assert(texts(v@) =~= crib_sheet());
    v
}

} // verus!

//! What is drawn on the screen, and where: the desktop, the status bar, the tabs
//! of minimised windows and scrollbars.
pub mod ansi;
pub mod damage;
pub mod dock_shown;
pub mod emulated;
pub mod framed;
pub mod help_view;
pub mod inside;
pub mod listed;
pub mod menu_view;
pub mod overlay_laws;
pub mod panel;
pub mod pointer;
pub mod previewed;
pub mod render;
pub mod row_laws;
pub mod screen;
pub mod scrollbar;
pub mod stamped;
pub mod terminal_view;
pub mod transitions;
pub mod window;

use vstd::prelude::*;
use vstd::string::*;
use crate::text::{
    center_chars, centered, chars_of, dec, push_chars, push_dec, push_repeated, repeated, titled,
    titled_chars,
};
use crate::ui::ansi::{move_text, move_to};
use crate::ui::scrollbar::{scrollbar_thumb, thumb};
use crate::ui::window::{column, put, put_column, put_text};

verus! {

/// The width of the status bar before the input, ` Start | .> `.
pub const STATUS_PREFIX_LEN: u16 = 12;

pub const STATUS_START_X: u16 = 1;

/// The width of the button ` Start `.
pub const STATUS_START_LEN: u16 = 7;

/// The column where the command input begins.
pub const CMD_INPUT_X: u16 = 13;

/// How many desktops there are.
pub const DESKTOP_COUNT: usize = 4;

/// The width of the desktop buttons, `| N ` each.
pub const DESKTOP_AREA_LEN: u16 = 16;

/// The width of ` .> `, which stands before the input of a terminal window.
pub const TERMINAL_PREFIX_LEN: u16 = 4;

pub open spec fn status_bar_prefix() -> Seq<char> {
    " Start | .> "@
}

pub open spec fn terminal_input_prefix() -> Seq<char> {
    " .> "@
}

/// The names of the lengths are those of the texts.
pub(crate) proof fn lemma_prefix_lengths()
    ensures
        status_bar_prefix().len() == STATUS_PREFIX_LEN,
        CMD_INPUT_X == 1 + STATUS_PREFIX_LEN,
        terminal_input_prefix().len() == TERMINAL_PREFIX_LEN,
        " Start "@.len() == STATUS_START_LEN,
        DESKTOP_AREA_LEN == 4 * DESKTOP_COUNT,
{
    reveal_strlit(" Start | .> ");
    reveal_strlit(" .> ");
    reveal_strlit(" Start ");
}

// ── The desktop ──────────────────────────────────────────────────────────────

/// The screen with the frame of the desktop on it, in rows `1..n` where it has
/// sides.
pub open spec fn sides_drawn(t: Seq<char>, w: u16, n: int) -> Seq<char>
    decreases n,
{
    if n <= 1 {
        t
    } else {
        let t = sides_drawn(t, w, n - 1);
        put(put(t, 0, n - 1, "│"@), w - 1, n - 1, "│"@)
    }
}

pub open spec fn desktop_drawn(
    t: Seq<char>,
    theme: u16,
    w: u16,
    h: u16,
    title: Seq<char>,
) -> Seq<char> {
    let bar = centered(titled(title), '─', w - 2);
    if theme == 1 {
        put(t, 0, 0, "└"@) + bar + "┘"@
    } else if theme == 2 {
        sides_drawn(put(t, 0, 0, "┌"@) + bar + "┐"@, w, h - 1)
    } else {
        t
    }
}

/// Draws the frame of the desktop.
pub fn draw_desktop(out: &mut String, theme: u16, w: u16, h: u16, title: &str)
    requires
        theme == 1 || theme == 2 ==> w >= 2,
        theme == 2 ==> h >= 1,
    ensures
        final(out)@ == desktop_drawn(old(out)@, theme, w, h, title@),
{
    if theme == 1 {
        put_text(out, 0, 0, "└");
        let bar = center_chars(&titled_chars(title), '─', w as usize - 2);
        push_chars(out, &bar);
        out.append("┘");
    } else if theme == 2 {
        put_text(out, 0, 0, "┌");
        let bar = center_chars(&titled_chars(title), '─', w as usize - 2);
        push_chars(out, &bar);
        out.append("┐");
        let ghost before = out@;
        let mut i: u16 = 1;
        while i < h - 1
            invariant
                1 <= i,
                i < h || i == 1,
                1 <= h,
                w >= 2,
                out@ == sides_drawn(before, w, i as int),
            decreases h - i,
        {
            put_text(out, 0, i, "│");
            put_text(out, w - 1, i, "│");
            i = i + 1;
        }
    }
}

// ── The status bar ───────────────────────────────────────────────────────────

/// The buttons of the first `n` desktops.
pub open spec fn buttons(t: Seq<char>, n: int, current: int) -> Seq<char>
    decreases n,
{
    if n <= 0 {
        t
    } else {
        let t = buttons(t, n - 1, current) + "|"@;
        if n == current {
            t + "\u{1b}[7m"@ + " "@ + dec(n as nat) + " "@ + "\u{1b}[0m"@
        } else {
            t + " "@ + dec(n as nat) + " "@
        }
    }
}

/// How many characters of `n` are left behind `used`.
pub open spec fn left_over(n: int, used: int) -> int {
    if n >= used {
        n - used
    } else {
        0
    }
}

/// The screen with the status bar in its three last rows.
pub open spec fn status_drawn(
    t: Seq<char>,
    w: u16,
    h: u16,
    path: Seq<char>,
    panel_open: bool,
    current: int,
) -> Seq<char> {
    let inner = w - 2;
    let t = t + move_text(0, h - 3) + (if panel_open {
        "├"@
    } else {
        "┌"@
    });
    let t = if path.len() == 0 {
        t + repeated('─', inner)
    } else {
        let t = t + "── "@ + path + " "@;
        t + repeated('─', left_over(inner, path.len() as int + 4))
    };
    let t = t + (if panel_open {
        "┤"@
    } else {
        "┐"@
    });
    let t = t + move_text(0, h - 2) + "│"@ + status_bar_prefix() + repeated(
        ' ',
        left_over(inner, STATUS_PREFIX_LEN + DESKTOP_AREA_LEN),
    );
    let t = buttons(t, DESKTOP_COUNT as int, current) + "│"@;
    t + move_text(0, h - 1) + "└"@ + repeated('─', inner) + "┘"@
}

/// Draws the status bar: its upper edge with the path, the input line with the
/// desktop buttons, its lower edge.
pub fn draw_status_bar(
    out: &mut String,
    w: u16,
    h: u16,
    path: &str,
    panel_open: bool,
    current_desktop: usize,
)
    requires
        w >= 2,
        h >= 3,
    ensures
        final(out)@ == status_drawn(
            old(out)@,
            w,
            h,
            path@,
            panel_open,
            current_desktop as int,
        ),
{
    let inner: usize = (w - 2) as usize;
    move_to(out, 0, h - 3);
    out.append(
        if panel_open {
            "├"
        } else {
            "┌"
        },
    );
    let len: usize = chars_of(path).len();
    if len == 0 {
        push_repeated(out, '─', inner);
    } else {
        out.append("── ");
        out.append(path);
        out.append(" ");
        let fill: usize = if len < inner && 4 <= inner - len {
            inner - len - 4
        } else {
            0
        };
        push_repeated(out, '─', fill);
    }
    out.append(
        if panel_open {
            "┤"
        } else {
            "┐"
        },
    );
    move_to(out, 0, h - 2);
    out.append("│");
    out.append(" Start | .> ");
    push_repeated(
        out,
        ' ',
        inner.saturating_sub((STATUS_PREFIX_LEN + DESKTOP_AREA_LEN) as usize),
    );
    let ghost before = out@;
    let mut d: usize = 1;
    while d <= DESKTOP_COUNT
        invariant
            1 <= d <= DESKTOP_COUNT + 1,
            out@ == buttons(before, d - 1, current_desktop as int),
        decreases DESKTOP_COUNT + 1 - d,
    {
        out.append("|");
        if d == current_desktop {
            out.append("\u{1b}[7m");
            out.append(" ");
            push_dec(out, d as u128);
            out.append(" ");
            out.append("\u{1b}[0m");
        } else {
            out.append(" ");
            push_dec(out, d as u128);
            out.append(" ");
        }
        d = d + 1;
    }
    out.append("│");
    move_to(out, 0, h - 1);
    out.append("└");
    push_repeated(out, '─', inner);
    out.append("┘");
}

/// The desktop whose button is at `(x, y)`: three columns each behind a bar, the
/// last before the right edge.
pub open spec fn button_at(x: u16, y: u16, w: u16, h: u16) -> Option<usize> {
    let base = if w >= 17 {
        w - 17
    } else {
        0
    };
    if y != h - 2 || x < base || x >= base + 16 || (x - base) % 4 == 0 {
        None
    } else {
        Some(((x - base) / 4 + 1) as usize)
    }
}

/// The number of the desktop whose button is at `(x, y)`.
pub fn desktop_at(x: u16, y: u16, w: u16, h: u16) -> (d: Option<usize>)
    requires
        h >= 2,
    ensures
        d == button_at(x, y, w, h),
{
    if y != h - 2 {
        return None;
    }
    let base: u16 = w.saturating_sub(17);
    if x < base || x - base >= 16 || (x - base) % 4 == 0 {
        return None;
    }
    Some(((x - base) / 4 + 1) as usize)
}

// ── Tabs ─────────────────────────────────────────────────────────────────────

/// What a tab shows in its row `row`: the title, which runs round where it is
/// longer than the tab.
pub open spec fn tab_letter(title: Seq<char>, rows: int, row: int, offset: int) -> char {
    if title.len() > rows {
        let ring = title + "  "@;
        ring[(offset + row) % (ring.len() as int)]
    } else if row < title.len() {
        title[row]
    } else {
        ' '
    }
}

fn tab_content_char(title: &str, content_rows: usize, row: usize, scroll_offset: usize) -> (c: char)
    ensures
        c == tab_letter(title@, content_rows as int, row as int, scroll_offset as int),
{
    let v = chars_of(title);
    let n: usize = v.len();
    if n > content_rows {
        proof {
            reveal_strlit("  ");
        }
        let at: u128 = (scroll_offset as u128 + row as u128) % (n as u128 + 2);
        if at < n as u128 {
            v[at as usize]
        } else {
            ' '
        }
    } else if row < n {
        v[row]
    } else {
        ' '
    }
}

/// The first `n` rows of a tab's title.
pub open spec fn tab_rows(
    t: Seq<char>,
    x: int,
    y: int,
    n: int,
    title: Seq<char>,
    rows: int,
    offset: int,
) -> Seq<char>
    decreases n,
{
    if n <= 0 {
        t
    } else {
        put(tab_rows(t, x, y, n - 1, title, rows, offset), x, y + n, "│"@).push(
            tab_letter(title, rows, n - 1, offset),
        )
    }
}

/// The screen with a tab on it.
pub open spec fn tab_drawn(
    t: Seq<char>,
    x: u16,
    y: u16,
    height: u16,
    title: Seq<char>,
    offset: usize,
) -> Seq<char> {
    let rows = left_over(height as int, 2);
    let t = put(t, x as int, y as int, "┌─"@);
    let t = tab_rows(t, x as int, y as int, rows, title, rows, offset as int);
    put(t, x as int, y + height - 1, "└─"@)
}

/// Draws the tab of a minimised window, two columns wide.
pub fn draw_tab(
    out: &mut String,
    x: u16,
    y: u16,
    height: u16,
    title: &str,
    scroll_offset: usize,
)
    requires
        x < 0xffff,
        1 <= y + height <= 0xffff,
        y < 0xffff,
    ensures
        final(out)@ == tab_drawn(old(out)@, x, y, height, title@, scroll_offset),
{
    let rows: u16 = height.saturating_sub(2);
    put_text(out, x, y, "┌─");
    let ghost before = out@;
    let mut i: u16 = 0;
    while i < rows
        invariant
            i <= rows,
            rows == left_over(height as int, 2),
            x < 0xffff,
            y + height <= 0xffff,
            out@ == tab_rows(
                before,
                x as int,
                y as int,
                i as int,
                title@,
                rows as int,
                scroll_offset as int,
            ),
        decreases rows - i,
    {
        let c: char = tab_content_char(title, rows as usize, i as usize, scroll_offset);
        put_text(out, x, y + 1 + i, "│");
        out.push(c);
        i = i + 1;
    }
    put_text(out, x, ((y as u32 + height as u32) - 1) as u16, "└─");
}

/// The character that a tab shows at `(x, y)`.
pub open spec fn tab_cell(
    tab_x: u16,
    tab_y: u16,
    tab_h: u16,
    title: Seq<char>,
    x: u16,
    y: u16,
    offset: usize,
) -> char {
    if y == tab_y {
        if x == tab_x {
            '┌'
        } else {
            '─'
        }
    } else if y == tab_y + tab_h - 1 {
        if x == tab_x {
            '└'
        } else {
            '─'
        }
    } else if x == tab_x {
        '│'
    } else {
        tab_letter(title, left_over(tab_h as int, 2), y - tab_y - 1, offset as int)
    }
}

pub fn tab_char_at(
    tab_x: u16,
    tab_y: u16,
    tab_h: u16,
    title: &str,
    x: u16,
    y: u16,
    scroll_offset: usize,
) -> (c: char)
    requires
        tab_y <= y,
        1 <= tab_y + tab_h <= 0xffff,
    ensures
        c == tab_cell(tab_x, tab_y, tab_h, title@, x, y, scroll_offset),
{
    if y == tab_y {
        return if x == tab_x {
            '┌'
        } else {
            '─'
        };
    }
    if y as u32 == tab_y as u32 + tab_h as u32 - 1 {
        return if x == tab_x {
            '└'
        } else {
            '─'
        };
    }
    if x == tab_x {
        return '│';
    }
    tab_content_char(
        title,
        tab_h.saturating_sub(2) as usize,
        (y - tab_y - 1) as usize,
        scroll_offset,
    )
}

// ── Scrollbars ───────────────────────────────────────────────────────────────

/// The screen with a vertical scrollbar on it: the track, and the thumb over it.
pub open spec fn scrollbar_drawn(
    t: Seq<char>,
    x: u16,
    top: u16,
    bot: u16,
    total: usize,
    visible: usize,
    scroll: usize,
) -> Seq<char> {
    if total <= visible || bot < top {
        t
    } else {
        let n = bot - top + 1;
        let (pos, len) = thumb(n as usize, total, visible, scroll);
        let t = column(t, x as int, top as int, 0, n, "░"@);
        column(t, x as int, top + pos, 0, len as int, "█"@)
    }
}

/// Draws a vertical scrollbar, where not everything is visible.
pub fn draw_scrollbar(
    out: &mut String,
    x: u16,
    top: u16,
    bot: u16,
    total: usize,
    visible: usize,
    scroll: usize,
)
    requires
        total > visible && top <= bot ==> x < 0xffff && bot < 0xffff,
    ensures
        final(out)@ == scrollbar_drawn(old(out)@, x, top, bot, total, visible, scroll),
{
    if total <= visible || bot < top {
        return;
    }
    let n: u16 = bot - top + 1;
    let (pos, len) = scrollbar_thumb(n as usize, total, visible, scroll);
    put_column(out, x, top, 0, n, "░");
    put_column(out, x, top + pos as u16, 0, len as u16, "█");
}

} // verus!

//! One frame of the screen: everything is drawn into a grid, and what changed since
//! the last frame is written out.
use vstd::prelude::*;
use vstd::string::*;
use vstd::utf8::encode_utf8;
use crate::app::{apps, AppModel, Application};
use crate::cmd::{entries, CommandEntry, EntryModel};
use crate::input::{input_view, place, view_start};
use crate::num::min_len;
use crate::terminal_emulator::{plain_style, Cell};
use crate::text::{chars_of, dec, push_dec};
use crate::ui::ansi::{clear, clear_text, hide_cursor, move_text, move_to, show_cursor};
use crate::ui::help_view::{draw_help_content, help_drawn};
use crate::ui::menu_view::{draw_menu_content, menu_drawn};
use crate::ui::panel::{draw_command_panel, panel_drawn, push_padded, put_padded};
use crate::ui::pointer::Pointer;
use crate::ui::screen::{BoxSelect, GridModel, ScreenGrid, StampModel, StampWriter};
use crate::ui::scrollbar::{scrollbar_thumb, thumb};
use crate::ui::terminal_view::{
    cells_drawn, draw_cells, draw_emulator_content, draw_shell_content, draw_terminal_content,
    grid_drawn, history_drawn, shell_drawn, style_before,
};
use crate::ui::window::{bar_char, put, put_text, Window};
use crate::ui::{
    button_at, desktop_at, desktop_drawn, draw_desktop, draw_scrollbar, draw_status_bar, draw_tab,
    left_over, scrollbar_drawn, status_drawn, tab_cell, tab_char_at, tab_drawn,
    terminal_input_prefix, CMD_INPUT_X, STATUS_START_LEN, STATUS_START_X,
};
use crate::wm::{
    all_wf, front, layer_of, minimized, minimized_list, preview_size, resize_preview_size,
    tab_layout, tabs, topmost_window_at, Mode, ModeModel,
};

verus! {

/// Everything that a frame shows.
pub struct Frame<'a> {
    pub applications: &'a Vec<Application>,
    pub resize_preview: Option<(usize, u16, u16)>,
    pub cursor_interaction: Option<char>,
    pub w: u16,
    pub h: u16,
    pub pointer: Pointer,
    pub scroll_offset: usize,
    pub tab_scroll: usize,
    pub path: &'a str,
    pub typing_input: Option<(&'a str, usize)>,
    pub commands: &'a [CommandEntry],
    pub panel_scroll: usize,
    pub current_desktop: usize,
    pub focused_terminal: Option<(usize, &'a str, usize)>,
    pub selection: Option<BoxSelect>,
    pub theme: u16,
    pub full_redraw: bool,
    pub draw_pointer: bool,
}

#[verifier::ext_equal]
pub struct FrameModel {
    pub apps: Seq<AppModel>,
    pub resize_preview: Option<(usize, u16, u16)>,
    pub cursor_interaction: Option<char>,
    pub w: u16,
    pub h: u16,
    pub pointer: Pointer,
    pub scroll_offset: usize,
    pub tab_scroll: usize,
    pub path: Seq<char>,
    pub typing_input: Option<(Seq<char>, usize)>,
    pub commands: Seq<EntryModel>,
    pub panel_scroll: usize,
    pub desktop: usize,
    pub focused: Option<(usize, Seq<char>, usize)>,
    pub selection: Option<BoxSelect>,
    pub theme: u16,
    pub full_redraw: bool,
    pub draw_pointer: bool,
}

impl<'a> View for Frame<'a> {
    type V = FrameModel;

    open spec fn view(&self) -> FrameModel {
        FrameModel {
            apps: apps(self.applications@),
            resize_preview: self.resize_preview,
            cursor_interaction: self.cursor_interaction,
            w: self.w,
            h: self.h,
            pointer: self.pointer,
            scroll_offset: self.scroll_offset,
            tab_scroll: self.tab_scroll,
            path: self.path@,
            typing_input: match self.typing_input {
                Some((s, c)) => Some((s@, c)),
                None => None,
            },
            commands: entries(self.commands@),
            panel_scroll: self.panel_scroll,
            desktop: self.current_desktop,
            focused: match self.focused_terminal {
                Some((i, s, c)) => Some((i, s@, c)),
                None => None,
            },
            selection: self.selection,
            theme: self.theme,
            full_redraw: self.full_redraw,
            draw_pointer: self.draw_pointer,
        }
    }
}

// ── The order of the windows ─────────────────────────────────────────────────

/// An index put into a list that is sorted by layer, behind those of its layer.
pub open spec fn ordered_in(list: Seq<usize>, a: Seq<AppModel>, i: usize) -> Seq<usize>
    decreases list.len(),
{
    if list.len() > 0 && layer_of(a[list.last() as int]) > layer_of(a[i as int]) {
        ordered_in(list.drop_last(), a, i).push(list.last())
    } else {
        list.push(i)
    }
}

/// The first `n` applications in the order in which they are drawn.
pub open spec fn draw_order(a: Seq<AppModel>, n: int) -> Seq<usize>
    decreases n,
{
    if n <= 0 {
        Seq::empty()
    } else {
        ordered_in(draw_order(a, n - 1), a, (n - 1) as usize)
    }
}

/// Whether application `i` is drawn before application `k`.
pub open spec fn drawn_before(a: Seq<AppModel>, i: usize, k: usize) -> bool {
    layer_of(a[i as int]) < layer_of(a[k as int]) || layer_of(a[i as int]) == layer_of(a[k as int])
        && i < k
}

proof fn lemma_ordered_in(list: Seq<usize>, a: Seq<AppModel>, i: usize)
    requires
        forall|p: int, q: int|
            0 <= p < q < list.len() ==> drawn_before(a, #[trigger] list[p], #[trigger] list[q]),
        forall|p: int| 0 <= p < list.len() ==> #[trigger] list[p] < i,
    ensures
        ({
            let r = ordered_in(list, a, i);
            &&& r.len() == list.len() + 1
            &&& forall|p: int, q: int|
                0 <= p < q < r.len() ==> drawn_before(a, #[trigger] r[p], #[trigger] r[q])
            &&& forall|p: int| 0 <= p < r.len() ==> #[trigger] r[p] <= i
            &&& r.contains(i)
            &&& forall|k: usize| list.contains(k) ==> #[trigger] r.contains(k)
        }),
    decreases list.len(),
{
    let r = ordered_in(list, a, i);
    if list.len() > 0 && layer_of(a[list.last() as int]) > layer_of(a[i as int]) {
        let front = list.drop_last();
        lemma_ordered_in(front, a, i);
        let rest = ordered_in(front, a, i);
        assert(r == rest.push(list.last()));
        lemma_members(front, a, i);
        assert forall|p: int, q: int| 0 <= p < q < r.len() implies drawn_before(
            a,
            #[trigger] r[p],
            #[trigger] r[q],
        ) by {
            if q == r.len() - 1 {
                assert(rest.contains(rest[p]));
                if rest[p] != i {
                    let k = choose|k: int| 0 <= k < front.len() && front[k] == rest[p];
                    assert(drawn_before(a, list[k], list[list.len() - 1]));
                }
            }
        }
        assert(r.contains(i)) by {
            let k = choose|k: int| 0 <= k < rest.len() && rest[k] == i;
            assert(r[k] == i);
        }
        assert forall|k: usize| list.contains(k) implies #[trigger] r.contains(k) by {
            let m = choose|m: int| 0 <= m < list.len() && list[m] == k;
            if m < front.len() {
                assert(front[m] == k);
                assert(front.contains(k));
                assert(rest.contains(k));
                let z = choose|z: int| 0 <= z < rest.len() && rest[z] == k;
                assert(r[z] == k);
            } else {
                assert(r[r.len() - 1] == k);
            }
        }
    } else {
        assert(r[list.len() as int] == i);
        assert forall|p: int, q: int| 0 <= p < q < r.len() implies drawn_before(
            a,
            #[trigger] r[p],
            #[trigger] r[q],
        ) by {
            if q == list.len() {
                assert(r[p] == list[p]);
                if p < list.len() - 1 {
                    assert(drawn_before(a, list[p], list[list.len() - 1]));
                }
            } else {
                assert(r[p] == list[p] && r[q] == list[q]);
            }
        }
        assert forall|k: usize| list.contains(k) implies #[trigger] r.contains(k) by {
            let m = choose|m: int| 0 <= m < list.len() && list[m] == k;
            assert(r[m] == k);
        }
    }
}

proof fn lemma_members(list: Seq<usize>, a: Seq<AppModel>, i: usize)
    ensures
        forall|p: int|
            0 <= p < ordered_in(list, a, i).len() ==> (#[trigger] ordered_in(list, a, i)[p]) == i
                || list.contains(ordered_in(list, a, i)[p]),
    decreases list.len(),
{
    let r = ordered_in(list, a, i);
    if list.len() > 0 && layer_of(a[list.last() as int]) > layer_of(a[i as int]) {
        let front = list.drop_last();
        lemma_members(front, a, i);
        let rest = ordered_in(front, a, i);
        assert forall|p: int| 0 <= p < r.len() implies (#[trigger] r[p]) == i || list.contains(
            r[p],
        ) by {
            if p < rest.len() {
                assert(r[p] == rest[p]);
                if rest[p] != i {
                    let k = choose|k: int| 0 <= k < front.len() && front[k] == rest[p];
                    assert(list[k] == r[p]);
                }
            } else {
                assert(list[list.len() - 1] == r[p]);
            }
        }
    } else {
        assert forall|p: int| 0 <= p < r.len() implies (#[trigger] r[p]) == i || list.contains(
            r[p],
        ) by {
            if p < list.len() {
                assert(list[p] == r[p]);
            }
        }
    }
}

/// Every application is drawn once, those on lower layers first, and those on one
/// layer in the order of the list.
pub proof fn lemma_draw_order(a: Seq<AppModel>, n: int)
    requires
        0 <= n <= a.len() <= usize::MAX,
    ensures
        ({
            let r = draw_order(a, n);
            &&& r.len() == n
            &&& forall|p: int, q: int|
                0 <= p < q < n ==> drawn_before(a, #[trigger] r[p], #[trigger] r[q])
            &&& forall|p: int| 0 <= p < n ==> #[trigger] r[p] < n
            &&& forall|k: usize| k < n ==> #[trigger] r.contains(k)
        }),
    decreases n,
{
    if n > 0 {
        lemma_draw_order(a, n - 1);
        lemma_ordered_in(draw_order(a, n - 1), a, (n - 1) as usize);
    }
}

fn order_windows(applications: &Vec<Application>) -> (v: Vec<usize>)
    ensures
        v@ == draw_order(apps(applications@), applications@.len() as int),
        v@.len() == applications@.len(),
        forall|p: int| 0 <= p < v@.len() ==> #[trigger] v@[p] < applications@.len(),
{
    let ghost a = apps(applications@);
    let mut v: Vec<usize> = Vec::new();
    let mut i: usize = 0;
    while i < applications.len()
        invariant
            i <= applications@.len(),
            a == apps(applications@),
            v@ == draw_order(a, i as int),
            v@.len() == i,
            forall|p: int| 0 <= p < v@.len() ==> #[trigger] v@[p] < i,
        decreases applications@.len() - i,
    {
        proof {
            lemma_draw_order(a, i + 1);
        }
        assert(a[i as int] == applications@[i as int]@);
        let layer: u16 = window_layer(&applications[i]);
        let ghost before = v@;
        let mut n: usize = v.len();
        assert(before.take(n as int) =~= before);
        assert(ordered_in(before, a, i) =~= ordered_in(before.take(n as int), a, i) + before.skip(
            n as int,
        ));
        while n > 0 && window_layer(&applications[v[n - 1]]) > layer
            invariant
                n <= v@.len(),
                v@ == before,
                i < applications@.len(),
                a == apps(applications@),
                layer == layer_of(a[i as int]),
                forall|p: int| 0 <= p < v@.len() ==> #[trigger] v@[p] < i,
                ordered_in(before, a, i) == ordered_in(before.take(n as int), a, i) + before.skip(
                    n as int,
                ),
            decreases n,
        {
            let ghost front = before.take(n as int);
            assert(front.drop_last() =~= before.take(n - 1));
            assert(front.last() == v@[n - 1]);
            assert(a[v@[n - 1] as int] == applications@[v@[n - 1] as int]@);
            assert(ordered_in(before.take(n - 1), a, i).push(front.last()) + before.skip(n as int)
                =~= ordered_in(before.take(n - 1), a, i) + before.skip(n - 1));
            n = n - 1;
        }
        proof {
            if n > 0 {
                assert(before.take(n as int).last() == v@[n - 1]);
                assert(a[v@[n - 1] as int] == applications@[v@[n - 1] as int]@);
            }
        }
        v.insert(n, i);
        assert(v@ =~= before.take(n as int).push(i) + before.skip(n as int));
        i = i + 1;
    }
    v
}

fn window_layer(app: &Application) -> (r: u16)
    ensures
        r == layer_of(app@),
{
    match app.window() {
        Some(w) => w.layer,
        None => 0,
    }
}

// ── Windows ──────────────────────────────────────────────────────────────────

/// Whether a window can be drawn with what is in it.
pub open spec fn window_fits(w: Window) -> bool {
    w.fits() && w.inside_fits() && w.width >= 2 && w.height >= 2
}

/// The screen with an application's window and its content on it.
pub open spec fn app_drawn(t: Seq<char>, a: AppModel, focused: bool) -> Seq<char> {
    match a.window() {
        None => t,
        Some(w) => {
            let t = w.drawn(t, a.title);
            match a.terminal {
                Some(s) => match s.emulator {
                    Some(m) => grid_drawn(t, w, m, s.panel_scroll as int, focused),
                    None => if s.session is Some {
                        shell_drawn(t, w, s.shell_lines, s.panel_scroll as int, s.repl_prompt)
                    } else {
                        history_drawn(t, w, s.path, s.commands, s.panel_scroll as int)
                    },
                },
                None => match a.menu {
                    Some(m) => menu_drawn(t, w, m),
                    None => match a.help {
                        Some(m) => help_drawn(t, w, m),
                        None => t,
                    },
                },
            }
        },
    }
}

fn draw_app(out: &mut String, app: &Application, focused: bool)
    requires
        app.wf(),
        app@.window() matches Some(w) ==> window_fits(w),
    ensures
        final(out)@ == app_drawn(old(out)@, app@, focused),
{
    match app.window() {
        None => {},
        Some(win) => {
            win.draw(out, app.title.as_str());
            match &app.terminal {
                Some(t) => match &t.emulator {
                    Some(em) => draw_emulator_content(out, win, em, t.panel_scroll, focused),
                    None => {
                        if t.shell_session.is_some() {
                            match &t.repl_prompt {
                                Some(p) => draw_shell_content(
                                    out,
                                    win,
                                    &t.shell_lines,
                                    t.panel_scroll,
                                    Some(p.as_str()),
                                ),
                                None => draw_shell_content(
                                    out,
                                    win,
                                    &t.shell_lines,
                                    t.panel_scroll,
                                    None,
                                ),
                            }
                        } else {
                            draw_terminal_content(
                                out,
                                win,
                                t.path.as_str(),
                                &t.commands,
                                t.panel_scroll,
                            );
                        }
                    },
                },
                None => match &app.menu {
                    Some(m) => draw_menu_content(out, win, m),
                    None => match &app.help {
                        Some(h) => draw_help_content(out, win, h),
                        None => {},
                    },
                },
            }
        },
    }
}

/// The first `n` of the applications in the order of drawing, those of one desktop.
pub open spec fn apps_drawn(
    t: Seq<char>,
    a: Seq<AppModel>,
    desktop: usize,
    order: Seq<usize>,
    n: int,
    focus: Option<usize>,
) -> Seq<char>
    decreases n,
{
    if n <= 0 {
        t
    } else {
        let t = apps_drawn(t, a, desktop, order, n - 1, focus);
        let i = order[n - 1];
        if a[i as int].desktop == desktop {
            app_drawn(t, a[i as int], focus == Some(i))
        } else {
            t
        }
    }
}

/// The windows of a desktop can all be drawn.
pub open spec fn all_fit(a: Seq<AppModel>, desktop: usize) -> bool {
    forall|i: int|
        0 <= i < a.len() && (#[trigger] a[i]).desktop == desktop ==> (a[i].window() matches Some(w)
            ==> window_fits(w))
}

fn draw_apps(out: &mut String, applications: &Vec<Application>, desktop: usize, focus: Option<usize>)
    requires
        all_wf(apps(applications@)),
        all_fit(apps(applications@), desktop),
    ensures
        final(out)@ == apps_drawn(
            old(out)@,
            apps(applications@),
            desktop,
            draw_order(apps(applications@), applications@.len() as int),
            applications@.len() as int,
            focus,
        ),
{
    let ghost a = apps(applications@);
    let order = order_windows(applications);
    let mut n: usize = 0;
    while n < order.len()
        invariant
            n <= order@.len(),
            a == apps(applications@),
            all_wf(a),
            all_fit(a, desktop),
            forall|p: int| 0 <= p < order@.len() ==> #[trigger] order@[p] < applications@.len(),
            out@ == apps_drawn(old(out)@, a, desktop, order@, n as int, focus),
        decreases order@.len() - n,
    {
        let i: usize = order[n];
        assert(a[i as int] == applications@[i as int]@);
        if applications[i].on_desktop(desktop) {
            let focused = match focus {
                Some(f) => f == i,
                None => false,
            };
            draw_app(out, &applications[i], focused);
        }
        n = n + 1;
    }
}

// ── Tabs ─────────────────────────────────────────────────────────────────────

/// The first column of the tabs.
pub open spec fn tab_x(w: u16) -> u16 {
    if w >= 3 {
        (w - 3) as u16
    } else {
        0
    }
}

/// The column of the scrollbar of the tabs.
pub open spec fn bar_x(w: u16) -> u16 {
    if w >= 1 {
        (w - 1) as u16
    } else {
        0
    }
}

/// The last row of the scrollbar of the tabs.
pub open spec fn bar_bottom(h: u16) -> u16 {
    if h >= 4 {
        (h - 4) as u16
    } else {
        0
    }
}

/// Whether the pointer is on a tab.
pub open spec fn on_tab(p: Pointer, t: (usize, u16, u16)) -> bool {
    t.1 <= p.y < t.1 + t.2
}

/// The first `n` tabs. The title of the one under the pointer runs.
pub open spec fn tabs_drawn(f: FrameModel, t: Seq<char>, list: Seq<(usize, u16, u16)>, n: int) -> Seq<
    char,
>
    decreases n,
{
    if n <= 0 {
        t
    } else {
        let one = list[n - 1];
        tab_drawn(
            tabs_drawn(f, t, list, n - 1),
            tab_x(f.w),
            one.1,
            one.2,
            f.apps[one.0 as int].title,
            if f.pointer.x >= tab_x(f.w) && on_tab(f.pointer, one) {
                f.scroll_offset
            } else {
                0
            },
        )
    }
}

/// The tabs and their scrollbar.
pub open spec fn rail_drawn(f: FrameModel, t: Seq<char>) -> Seq<char> {
    let list = tabs(f.apps, f.desktop, f.h, f.tab_scroll);
    let count = minimized(f.apps, f.desktop).len();
    if count == 0 {
        t
    } else {
        scrollbar_drawn(
            tabs_drawn(f, t, list, list.len() as int),
            bar_x(f.w),
            1,
            bar_bottom(f.h),
            count as usize,
            list.len() as usize,
            f.tab_scroll,
        )
    }
}

/// Whether the pointer is on a tab.
pub fn is_on_tab(p: &Pointer, t: &(usize, u16, u16)) -> (r: bool)
    ensures
        r == on_tab(*p, *t),
{
    t.1 <= p.y && (p.y as u32) < t.1 as u32 + t.2 as u32
}

fn draw_rail(out: &mut String, f: &Frame)
    requires
        f.w >= 2,
    ensures
        final(out)@ == rail_drawn(f@, old(out)@),
{
    let list = tab_layout(f.applications, f.current_desktop, f.h, f.tab_scroll);
    let count: usize = minimized_list(f.applications, f.current_desktop).len();
    if count == 0 {
        return;
    }
    let x: u16 = f.w.saturating_sub(3);
    let mut n: usize = 0;
    while n < list.len()
        invariant
            n <= list@.len(),
            x == tab_x(f.w),
            forall|k: int|
                0 <= k < list@.len() ==> (#[trigger] list@[k]).0 < f.applications@.len()
                    && list@[k].1 + list@[k].2 <= 0xffff && list@[k].2 >= 6,
            out@ == tabs_drawn(f@, old(out)@, list@, n as int),
        decreases list@.len() - n,
    {
        let one = list[n];
        assert(f@.apps[one.0 as int] == f.applications@[one.0 as int]@);
        let hovered = f.pointer.x >= x && is_on_tab(&f.pointer, &one);
        let offset: usize = if hovered {
            f.scroll_offset
        } else {
            0
        };
        draw_tab(out, x, one.1, one.2, f.applications[one.0].title.as_str(), offset);
        n = n + 1;
    }
    draw_scrollbar(
        out,
        f.w.saturating_sub(1),
        1,
        f.h.saturating_sub(4),
        count,
        list.len(),
        f.tab_scroll,
    );
}

// ── Input ────────────────────────────────────────────────────────────────────

/// The part of a line that a field of `max` characters shows.
pub open spec fn field_text(input: Seq<char>, cursor: usize, max: int) -> Seq<char> {
    if max <= 0 {
        Seq::empty()
    } else if input.len() <= max {
        input
    } else {
        let start = view_start(input.len(), cursor, max as usize);
        input.subrange(start, start + max)
    }
}

/// The column of the cursor in a field of `max` characters.
pub open spec fn field_column(input: Seq<char>, cursor: usize, max: int) -> int {
    if max <= 0 {
        0
    } else if input.len() <= max {
        place(cursor, input.len())
    } else {
        let ahead = cursor - view_start(input.len(), cursor, max as usize);
        if ahead <= max {
            ahead
        } else {
            max
        }
    }
}

/// How wide the input of the dock is.
pub open spec fn dock_width(w: u16) -> int {
    left_over(w - 2, CMD_INPUT_X as int)
}

/// The prompt of the focused terminal.
pub open spec fn prompt_of(a: AppModel) -> Seq<char> {
    match a.terminal {
        Some(t) => match t.repl_prompt {
            Some(p) => p,
            None => terminal_input_prefix(),
        },
        None => terminal_input_prefix(),
    }
}

/// The window of the focused terminal whose input is drawn: not that of an
/// interactive program, and not one that is too low.
pub open spec fn input_window(f: FrameModel) -> Option<Window> {
    match f.focused {
        Some((i, _, _)) => if i < f.apps.len() {
            let a = f.apps[i as int];
            let interactive = match a.terminal {
                Some(t) => t.interactive,
                None => false,
            };
            match a.window() {
                Some(w) => if !interactive && a.desktop == f.desktop && w.height >= 5 {
                    Some(w)
                } else {
                    None
                },
                None => None,
            }
        } else {
            None
        },
        None => None,
    }
}

/// The input of the dock or of the focused terminal.
pub open spec fn input_drawn(f: FrameModel, t: Seq<char>) -> Seq<char> {
    match f.typing_input {
        Some((input, cursor)) => {
            let max = dock_width(f.w);
            put_padded(
                t + move_text(CMD_INPUT_X as int, f.h - 2),
                field_text(input, cursor, max),
                max,
            )
        },
        None => match (f.focused, input_window(f)) {
            (Some((i, input, cursor)), Some(w)) => {
                let prompt = prompt_of(f.apps[i as int]);
                let max = left_over(w.inner_w(), prompt.len() as int);
                put_padded(
                    t + move_text(
                        w.position_x + 1 + prompt.len(),
                        w.position_y + w.height - 2,
                    ),
                    field_text(input, cursor, max),
                    max,
                )
            },
            _ => t,
        },
    }
}

/// Where the text cursor is shown.
pub open spec fn caret(f: FrameModel) -> Option<(int, int)> {
    match f.typing_input {
        Some((input, cursor)) => Some(
            (CMD_INPUT_X + field_column(input, cursor, dock_width(f.w)), f.h - 2),
        ),
        None => match (f.focused, input_window(f)) {
            (Some((i, input, cursor)), Some(w)) => {
                let prompt = prompt_of(f.apps[i as int]);
                let max = left_over(w.inner_w(), prompt.len() as int);
                Some(
                    (
                        w.position_x + 1 + prompt.len() + field_column(input, cursor, max),
                        w.position_y + w.height - 2,
                    ),
                )
            },
            _ => None,
        },
    }
}

/// Whether the prompt of the focused terminal fits the screen.
pub open spec fn prompt_fits(f: FrameModel) -> bool {
    input_window(f) matches Some(w) ==> w.fits() && w.width >= 2 && w.position_x + w.width
        + prompt_of(f.apps[(f.focused->0).0 as int]).len() < 0xffff
}

fn view_field(input: &str, cursor: usize, max: usize) -> (r: (Vec<char>, usize))
    ensures
        r.0@ == field_text(input@, cursor, max as int),
        r.1 == field_column(input@, cursor, max as int),
        r.1 <= max,
{
    let (s, col) = input_view(input, cursor, max);
    let v = chars_of(s.as_str());
    assert(v@ =~= field_text(input@, cursor, max as int));
    (v, col)
}

/// The window that the input is drawn in, its prompt, and how wide the field is.
fn input_field(f: &Frame) -> (r: Option<(Window, usize, usize)>)
    ensures
        match (r, input_window(f@)) {
            (Some((w, n, max)), Some(v)) => {
                let prompt = prompt_of(f@.apps[(f@.focused->0).0 as int]);
                &&& w == v
                &&& n == prompt.len()
                &&& max == left_over(w.inner_w(), prompt.len() as int)
                &&& f.focused_terminal is Some
            },
            (None, None) => true,
            _ => false,
        },
{
    match f.focused_terminal {
        None => None,
        Some((i, _, _)) => {
            if i >= f.applications.len() {
                return None;
            }
            let app = &f.applications[i];
            assert(f@.apps[i as int] == app@);
            let mut n: usize = chars_of(" .> ").len();
            match &app.terminal {
                Some(t) => {
                    if t.interactive {
                        return None;
                    }
                    match &t.repl_prompt {
                        Some(p) => {
                            n = chars_of(p.as_str()).len();
                        },
                        None => {},
                    }
                },
                None => {},
            }
            match app.window() {
                Some(w) => {
                    if app.on_desktop(f.current_desktop) && w.height >= 5 {
                        Some((*w, n, w.visible_w().saturating_sub(n)))
                    } else {
                        None
                    }
                },
                None => None,
            }
        },
    }
}

fn draw_input(out: &mut String, f: &Frame)
    requires
        f.w >= 2,
        f.h >= 3,
        prompt_fits(f@),
    ensures
        final(out)@ == input_drawn(f@, old(out)@),
{
    match f.typing_input {
        Some((input, cursor)) => {
            let max: usize = (f.w - 2).saturating_sub(CMD_INPUT_X) as usize;
            let (v, _) = view_field(input, cursor, max);
            move_to(out, CMD_INPUT_X, f.h - 2);
            push_padded(out, &v, max);
        },
        None => match f.focused_terminal {
            Some((_, input, cursor)) => match input_field(f) {
                Some((w, n, max)) => {
                    let (v, _) = view_field(input, cursor, max);
                    move_to(
                        out,
                        w.position_x + 1 + n as u16,
                        w.position_y + (w.height - 2),
                    );
                    push_padded(out, &v, max);
                },
                None => {},
            },
            None => {},
        },
    }
}

/// Where the text cursor is shown.
pub fn caret_position(f: &Frame) -> (r: Option<(u16, u16)>)
    requires
        f.w >= 2,
        f.h >= 3,
        prompt_fits(f@),
    ensures
        match (r, caret(f@)) {
            (Some((x, y)), Some((a, b))) => x == a && y == b && x < 0xffff && y < 0xffff,
            (None, None) => true,
            _ => false,
        },
{
    match f.typing_input {
        Some((input, cursor)) => {
            let max: usize = (f.w - 2).saturating_sub(CMD_INPUT_X) as usize;
            let (_, col) = view_field(input, cursor, max);
            Some((CMD_INPUT_X + col as u16, f.h - 2))
        },
        None => match f.focused_terminal {
            Some((_, input, cursor)) => match input_field(f) {
                Some((w, n, max)) => {
                    let (_, col) = view_field(input, cursor, max);
                    Some(
                        (
                            w.position_x + 1 + n as u16 + col as u16,
                            w.position_y + (w.height - 2),
                        ),
                    )
                },
                None => None,
            },
            None => None,
        },
    }
}

// ── Highlights ───────────────────────────────────────────────────────────────

/// Whether the pointer is on the start button.
pub open spec fn on_start(p: Pointer, h: u16) -> bool {
    p.y == h - 2 && STATUS_START_X <= p.x < STATUS_START_X + STATUS_START_LEN
}

/// The first column of the button of a desktop.
pub open spec fn button_x(w: u16, d: usize) -> int {
    left_over(w as int, 17) + (d - 1) * 4 + 1
}

/// The buttons of the status bar, in reverse video where the pointer is on them.
pub open spec fn hover_drawn(f: FrameModel, t: Seq<char>) -> Seq<char> {
    let t = if on_start(f.pointer, f.h) {
        put(t, STATUS_START_X as int, f.h - 2, "\u{1b}[7m"@) + " Start "@ + "\u{1b}[0m"@
    } else {
        t
    };
    match button_at(f.pointer.x, f.pointer.y, f.w, f.h) {
        Some(d) => put(t, button_x(f.w, d), f.h - 2, "\u{1b}[7m"@) + " "@ + dec(d as nat) + " "@
            + "\u{1b}[0m"@,
        None => t,
    }
}

fn draw_hover(out: &mut String, f: &Frame)
    requires
        f.w >= 2,
        f.h >= 3,
    ensures
        final(out)@ == hover_drawn(f@, old(out)@),
{
    if f.pointer.y == f.h - 2 && f.pointer.x >= STATUS_START_X && f.pointer.x < STATUS_START_X
        + STATUS_START_LEN {
        put_text(out, STATUS_START_X, f.h - 2, "\u{1b}[7m");
        out.append(" Start ");
        out.append("\u{1b}[0m");
    }
    match desktop_at(f.pointer.x, f.pointer.y, f.w, f.h) {
        Some(d) => {
            let x: u16 = f.w.saturating_sub(17) + (d as u16 - 1) * 4 + 1;
            put_text(out, x, f.h - 2, "\u{1b}[7m");
            out.append(" ");
            push_dec(out, d as u128);
            out.append(" ");
            out.append("\u{1b}[0m");
        },
        None => {},
    }
}

// ── The frame ────────────────────────────────────────────────────────────────

/// Whether everything that a frame shows has a place on the screen.
pub open spec fn drawable(f: FrameModel) -> bool {
    &&& f.w >= 2
    &&& f.h >= 3
    &&& f.pointer.x < 0xffff
    &&& f.pointer.y < 0xffff
    &&& all_fit(f.apps, f.desktop)
    &&& prompt_fits(f)
    &&& preview_fits(f)
}

/// Whether the new size of a window has a place on the screen.
pub open spec fn preview_fits(f: FrameModel) -> bool {
    f.resize_preview matches Some((i, w, h)) ==> i < f.apps.len() && (f.apps[i as int].desktop
        == f.desktop && f.apps[i as int].window() is Some ==> {
        let win = f.apps[i as int].window()->0;
        &&& 2 <= w
        &&& 1 <= h
        &&& win.position_x + w <= 0xffff
        &&& win.position_y + h <= 0xffff
    })
}

/// The outline of the new size of a window.
pub open spec fn preview_drawn(f: FrameModel, t: Seq<char>) -> Seq<char> {
    match f.resize_preview {
        Some((i, w, h)) => {
            let a = f.apps[i as int];
            match a.window() {
                Some(win) => if a.desktop == f.desktop {
                    win.previewed(t, w, h)
                } else {
                    t
                },
                None => t,
            }
        },
        None => t,
    }
}

/// Everything that is drawn before the selection and the pointer.
pub open spec fn frame_text(f: FrameModel) -> Seq<char> {
    let t = desktop_drawn(Seq::empty(), f.theme, f.w, f.h, "Manto"@);
    let focus = match f.focused {
        Some((i, _, _)) => Some(i),
        None => None,
    };
    let n = f.apps.len() as int;
    let t = apps_drawn(t, f.apps, f.desktop, draw_order(f.apps, n), n, focus);
    let t = rail_drawn(f, t);
    let t = preview_drawn(f, t);
    let t = panel_drawn(t, f.w, f.h, f.path, f.commands, f.panel_scroll as int);
    let t = status_drawn(t, f.w, f.h, f.path, f.commands.len() > 0, f.desktop as int);
    hover_drawn(f, input_drawn(f, t))
}

/// One cell of the grid shown in reverse video.
pub open spec fn inverted(m: StampModel, x: int, y: int) -> StampModel {
    m.run(
        encode_utf8(
            (move_text(x, y) + "\u{1b}[7m"@).push(m.grid.cell(x, y).ch) + "\u{1b}[0m"@,
        ),
    )
}

/// The first `n` cells of a row from `left` on in reverse video.
pub open spec fn row_inverted(m: StampModel, left: int, y: int, n: int) -> StampModel
    decreases n,
{
    if n <= 0 {
        m
    } else {
        inverted(row_inverted(m, left, y, n - 1), left + n - 1, y)
    }
}

/// The first `n` rows of a box in reverse video.
pub open spec fn box_inverted(m: StampModel, left: int, top: int, width: int, n: int) -> StampModel
    decreases n,
{
    if n <= 0 {
        m
    } else {
        row_inverted(box_inverted(m, left, top, width, n - 1), left, top + n - 1, width)
    }
}

/// The selection in reverse video, as far as it is on the screen.
pub open spec fn selection_drawn(m: StampModel, f: FrameModel) -> StampModel {
    match f.selection {
        Some(s) => {
            let (top, bottom, left, right) = s.span();
            let last_y = if bottom < f.h - 1 {
                bottom as int
            } else {
                f.h - 1
            };
            let last_x = if right < f.w - 1 {
                right as int
            } else {
                f.w - 1
            };
            box_inverted(m, left as int, top as int, last_x - left + 1, last_y - top + 1)
        },
        None => m,
    }
}

fn invert_selection(stamp: &mut StampWriter, f: &Frame)
    requires
        old(stamp).wf(),
        2 <= f.w,
        3 <= f.h,
    ensures
        final(stamp)@ == selection_drawn(old(stamp)@, f@),
        final(stamp).wf(),
{
    match f.selection {
        None => {},
        Some(s) => {
            let (top, bottom, left, right) = s.bounds();
            let last_y: usize = min_len(bottom, f.h as usize - 1);
            let last_x: usize = min_len(right, f.w as usize - 1);
            let ghost width = last_x - left + 1;
            let ghost start = stamp@;
            let mut y: usize = top;
            while y <= last_y
                invariant
                    top <= y,
                    y <= last_y + 1 || y == top,
                    last_y < f.h,
                    last_x < f.w,
                    stamp.wf(),
                    width == last_x - left + 1,
                    stamp@ == box_inverted(start, left as int, top as int, width, y - top),
                decreases last_y + 1 - y,
            {
                let ghost row = stamp@;
                let mut x: usize = left;
                while x <= last_x
                    invariant
                        left <= x,
                        x <= last_x + 1 || x == left,
                        last_x < f.w,
                        y < f.h,
                        stamp.wf(),
                        stamp@ == row_inverted(row, left as int, y as int, x - left),
                    decreases last_x + 1 - x,
                {
                    let ch: char = stamp.grid().char_at(x, y);
                    let mut text = String::new();
                    move_to(&mut text, x as u16, y as u16);
                    text.append("\u{1b}[7m");
                    text.push(ch);
                    text.append("\u{1b}[0m");
                    assert(text@ =~= (move_text(x as int, y as int) + "\u{1b}[7m"@).push(ch)
                        + "\u{1b}[0m"@);
                    stamp.stamp(text.as_str().as_bytes());
                    x = x + 1;
                }
                y = y + 1;
            }
        },
    }
}

/// What the pointer stands on: a tab, a button, the frame of a window or a
/// scrollbar, of which it shows the character.
pub open spec fn pointer_glyph(f: FrameModel) -> Option<char> {
    let p = f.pointer;
    let list = tabs(f.apps, f.desktop, f.h, f.tab_scroll);
    let count = minimized(f.apps, f.desktop).len();
    let bottom = bar_bottom(f.h);
    if count > list.len() && p.x == bar_x(f.w) && 1 <= p.y <= bottom {
        let (pos, len) = thumb(
            bottom as usize,
            count as usize,
            list.len() as usize,
            f.tab_scroll,
        );
        Some(bar_char(pos as int, len as int, p.y - 1))
    } else {
        let hit = if tab_x(f.w) <= p.x < bar_x(f.w) {
            tab_under(list, p, list.len() as int)
        } else {
            None
        };
        match hit {
            Some(t) => Some(
                tab_cell(
                    tab_x(f.w),
                    t.1,
                    t.2,
                    f.apps[t.0 as int].title,
                    p.x,
                    p.y,
                    f.scroll_offset,
                ),
            ),
            None => if on_start(p, f.h) {
                Some(" Start "@[p.x - STATUS_START_X])
            } else {
                match button_at(p.x, p.y, f.w, f.h) {
                    Some(d) => Some(
                        if p.x - button_x(f.w, d) == 1 {
                            crate::text::digit(d as int)
                        } else {
                            ' '
                        },
                    ),
                    None => match front(f.apps, f.desktop, Some((p.x, p.y))) {
                        Some(i) => match f.apps[i as int].window()->0.frame_char(
                            p.x as int,
                            p.y as int,
                            f.apps[i as int].title,
                        ) {
                            Some(c) => Some(c),
                            None => f.cursor_interaction,
                        },
                        None => f.cursor_interaction,
                    },
                }
            },
        }
    }
}

/// The first of `n` tabs that the pointer is on.
pub open spec fn tab_under(list: Seq<(usize, u16, u16)>, p: Pointer, n: int) -> Option<
    (usize, u16, u16),
>
    decreases n,
{
    if n <= 0 {
        None
    } else {
        match tab_under(list, p, n - 1) {
            Some(t) => Some(t),
            None => if on_tab(p, list[n - 1]) {
                Some(list[n - 1])
            } else {
                None
            },
        }
    }
}

/// The first tab that the pointer is on.
pub fn find_tab(list: &Vec<(usize, u16, u16)>, p: &Pointer) -> (r: Option<(usize, u16, u16)>)
    ensures
        r == tab_under(list@, *p, list@.len() as int),
        r matches Some(t) ==> on_tab(*p, t) && list@.contains(t),
{
    let mut r: Option<(usize, u16, u16)> = None;
    let mut n: usize = 0;
    while n < list.len()
        invariant
            n <= list@.len(),
            r == tab_under(list@, *p, n as int),
            r matches Some(t) ==> on_tab(*p, t) && list@.contains(t),
        decreases list@.len() - n,
    {
        if r.is_none() && is_on_tab(p, &list[n]) {
            r = Some(list[n]);
            assert(list@[n as int] == list@[n as int]);
        }
        n = n + 1;
    }
    r
}

/// The character that the pointer shows.
pub fn effective_cursor(f: &Frame) -> (c: Option<char>)
    requires
        f.w >= 2,
        f.h >= 3,
        all_fit(f@.apps, f.current_desktop),
    ensures
        c == pointer_glyph(f@),
{
    let p = f.pointer;
    let list = tab_layout(f.applications, f.current_desktop, f.h, f.tab_scroll);
    let count: usize = minimized_list(f.applications, f.current_desktop).len();
    let sb_x: u16 = f.w.saturating_sub(1);
    let bottom: u16 = f.h.saturating_sub(4);
    if count > list.len() && p.x == sb_x && 1 <= p.y && p.y <= bottom {
        let (pos, len) = scrollbar_thumb(bottom as usize, count, list.len(), f.tab_scroll);
        let row: usize = (p.y - 1) as usize;
        return Some(
            if row >= pos && row < pos + len {
                '█'
            } else {
                '░'
            },
        );
    }
    let x: u16 = f.w.saturating_sub(3);
    if p.x >= x && p.x < sb_x {
        match find_tab(&list, &p) {
            Some(t) => {
                proof {
                    let k = choose|k: int| 0 <= k < list@.len() && list@[k] == t;
                    assert(list@[k].0 < f.applications@.len());
                }
                assert(f@.apps[t.0 as int] == f.applications@[t.0 as int]@);
                return Some(
                    tab_char_at(
                        x,
                        t.1,
                        t.2,
                        f.applications[t.0].title.as_str(),
                        p.x,
                        p.y,
                        f.scroll_offset,
                    ),
                );
            },
            None => {},
        }
    }
    if p.y == f.h - 2 && p.x >= STATUS_START_X && p.x < STATUS_START_X + STATUS_START_LEN {
        let label = chars_of(" Start ");
        proof {
            crate::ui::lemma_prefix_lengths();
        }
        return Some(label[(p.x - STATUS_START_X) as usize]);
    }
    match desktop_at(p.x, p.y, f.w, f.h) {
        Some(d) => {
            let bx: u16 = f.w.saturating_sub(17) + (d as u16 - 1) * 4 + 1;
            return Some(
                if p.x == bx + 1 {
                    (48 + d as u8) as char
                } else {
                    ' '
                },
            );
        },
        None => {},
    }
    match topmost_window_at(f.applications, f.current_desktop, p.x, p.y) {
        Some(i) => {
            assert(f@.apps[i as int] == f.applications@[i as int]@);
            match f.applications[i].window() {
                Some(w) => match w.char_at(p.x, p.y, f.applications[i].title.as_str()) {
                    Some(c) => Some(c),
                    None => f.cursor_interaction,
                },
                None => f.cursor_interaction,
            }
        },
        None => f.cursor_interaction,
    }
}

/// The grid of a frame.
pub open spec fn frame_grid(f: FrameModel) -> GridModel {
    let m = StampModel::fresh(GridModel::fresh(f.w as int, f.h as int)).run(
        encode_utf8(frame_text(f)),
    );
    let m = selection_drawn(m, f);
    let m = if f.draw_pointer {
        m.run(encode_utf8(f.pointer.drawn(Seq::empty(), pointer_glyph(f))))
    } else {
        m
    };
    m.grid
}

// ── What is written out ──────────────────────────────────────────────────────

/// Whether row `y` differs between two frames.
pub open spec fn row_differs(prev: GridModel, next: GridModel, y: int) -> bool {
    exists|x: int| 0 <= x < next.w && prev.cell(x, y) != #[trigger] next.cell(x, y)
}

/// The first `n` rows of a frame, those that differ from the frame before.
pub open spec fn rows_emitted(t: Seq<char>, prev: GridModel, next: GridModel, n: int) -> Seq<char>
    decreases n,
{
    if n <= 0 {
        t
    } else {
        let t = rows_emitted(t, prev, next, n - 1);
        if row_differs(prev, next, n - 1) {
            let row = next.rows[n - 1];
            cells_drawn(t + move_text(0, n - 1), row, next.w) + crate::ui::ansi::sgr_texts(
                crate::ui::ansi::sgr_codes(style_before(row, next.w), plain_style()),
            )
        } else {
            t
        }
    }
}

/// What is written out to get from one frame to the next. The screen is cleared
/// where that is asked for or its size changed.
pub open spec fn frame_emitted(
    t: Seq<char>,
    prev: GridModel,
    next: GridModel,
    full_redraw: bool,
) -> Seq<char> {
    let t = if full_redraw || prev.w != next.w || prev.h != next.h {
        t + clear_text()
    } else {
        t
    };
    rows_emitted(t, prev, next, next.h)
}

/// Where nothing has changed nothing is written.
pub proof fn lemma_same_frame(t: Seq<char>, g: GridModel, n: int)
    ensures
        rows_emitted(t, g, g, n) == t,
        n == g.h ==> frame_emitted(t, g, g, false) == t,
    decreases n,
{
    if n > 0 {
        lemma_same_frame(t, g, n - 1);
    }
}

fn row_changed(prev: &ScreenGrid, next: &ScreenGrid, y: usize) -> (r: bool)
    requires
        prev.wf(),
        next.wf(),
    ensures
        r == row_differs(prev@, next@, y as int),
{
    let mut x: usize = 0;
    while x < next.width()
        invariant
            x <= next@.w,
            prev.wf(),
            next.wf(),
            forall|k: int| 0 <= k < x ==> prev@.cell(k, y as int) == #[trigger] next@.cell(
                k,
                y as int,
            ),
        decreases next@.w - x,
    {
        let a = prev.cell_at(x, y);
        let b = next.cell_at(x, y);
        if a.ch != b.ch || a.style != b.style {
            assert(prev@.cell(x as int, y as int) != next@.cell(x as int, y as int));
            return true;
        }
        x = x + 1;
    }
    false
}

fn row_cells(next: &ScreenGrid, y: usize) -> (v: Vec<Cell>)
    requires
        next.wf(),
        y < next@.h,
    ensures
        v@ == next@.rows[y as int],
        v@.len() == next@.w,
{
    let mut v: Vec<Cell> = Vec::new();
    assert(next@.rows[y as int].len() == next@.w);
    while v.len() < next.width()
        invariant
            next.wf(),
            y < next@.h,
            v@.len() <= next@.w,
            next@.rows[y as int].len() == next@.w,
            forall|k: int| 0 <= k < v@.len() ==> v@[k] == next@.rows[y as int][k],
        decreases next@.w - v@.len(),
    {
        v.push(next.cell_at(v.len(), y));
    }
    assert(v@ =~= next@.rows[y as int]);
    v
}

/// Writes out the rows that changed since the frame before.
pub fn emit_frame_diff(out: &mut String, prev: &ScreenGrid, next: &ScreenGrid, full_redraw: bool)
    requires
        prev.wf(),
        next.wf(),
    ensures
        final(out)@ == frame_emitted(old(out)@, prev@, next@, full_redraw),
{
    if full_redraw || prev.width() != next.width() || prev.height() != next.height() {
        clear(out);
    }
    let ghost before = out@;
    let mut y: usize = 0;
    while y < next.height()
        invariant
            y <= next@.h,
            prev.wf(),
            next.wf(),
            out@ == rows_emitted(before, prev@, next@, y as int),
        decreases next@.h - y,
    {
        if row_changed(prev, next, y) {
            move_to(out, 0, y as u16);
            let cells = row_cells(next, y);
            draw_cells(out, &cells, cells.len());
        }
        y = y + 1;
    }
}

/// What is written out for a frame.
pub open spec fn rendered(t: Seq<char>, f: FrameModel, prev: GridModel) -> Seq<char> {
    let t = frame_emitted(t, prev, frame_grid(f), f.full_redraw);
    match caret(f) {
        Some((x, y)) => t + move_text(x, y) + "\u{1b}[?25h"@,
        None => t + "\u{1b}[?25l"@,
    }
}

fn draw_frame_text(f: &Frame) -> (text: String)
    requires
        drawable(f@),
        all_wf(f@.apps),
    ensures
        text@ == frame_text(f@),
{
    let mut text = String::new();
    draw_desktop(&mut text, f.theme, f.w, f.h, "Manto");
    let focus = match f.focused_terminal {
        Some((i, _, _)) => Some(i),
        None => None,
    };
    draw_apps(&mut text, f.applications, f.current_desktop, focus);
    draw_rail(&mut text, f);
    match f.resize_preview {
        Some((i, w, h)) => {
            assert(f@.apps[i as int] == f.applications@[i as int]@);
            let app = &f.applications[i];
            match app.window() {
                Some(win) => {
                    if app.on_desktop(f.current_desktop) {
                        win.draw_preview(&mut text, w, h);
                    }
                },
                None => {},
            }
        },
        None => {},
    }
    draw_command_panel(&mut text, f.w, f.h, f.path, f.commands, f.panel_scroll);
    draw_status_bar(
        &mut text,
        f.w,
        f.h,
        f.path,
        f.commands.len() > 0,
        f.current_desktop,
    );
    draw_input(&mut text, f);
    draw_hover(&mut text, f);
    text
}

/// Draws a frame: composes it in a grid, writes out what differs from the grid of
/// the frame before, and puts the new grid in its place.
pub fn render(out: &mut String, f: &Frame, grid: &mut ScreenGrid)
    requires
        drawable(f@),
        all_wf(f@.apps),
        old(grid).wf(),
    ensures
        final(out)@ == rendered(old(out)@, f@, old(grid)@),
        final(grid)@ == frame_grid(f@),
        final(grid).wf(),
{
    let text = draw_frame_text(f);
    let mut stamp = StampWriter::new(ScreenGrid::new(f.w, f.h));
    stamp.stamp(text.as_str().as_bytes());
    invert_selection(&mut stamp, f);
    if f.draw_pointer {
        let mut mark = String::new();
        let glyph = effective_cursor(f);
        f.pointer.draw(&mut mark, glyph);
        assert(mark@ =~= f.pointer.drawn(Seq::empty(), glyph));
        stamp.stamp(mark.as_str().as_bytes());
    }
    let next = stamp.into_grid();
    emit_frame_diff(out, grid, &next, f.full_redraw);
    match caret_position(f) {
        Some((x, y)) => {
            move_to(out, x, y);
            show_cursor(out);
        },
        None => hide_cursor(out),
    }
    *grid = next;
}

/// What a mode adds to a frame: the outline of a window's new size, and how the
/// pointer looks.
pub open spec fn mode_marks(mode: ModeModel, a: Seq<AppModel>, pointer: Pointer) -> (
    Option<(usize, u16, u16)>,
    Option<char>,
) {
    match mode {
        ModeModel::Resizing { app_idx, .. } => if app_idx < a.len() {
            match a[app_idx as int].window() {
                Some(w) => {
                    let (pw, ph) = preview_size(w, pointer);
                    (Some((app_idx, pw, ph)), Some('┼'))
                },
                None => (None, None),
            }
        } else {
            (None, None)
        },
        _ => (None, None),
    }
}

/// What a mode adds to a frame.
pub fn compute_render_state(mode: &Mode, applications: &Vec<Application>, pointer: &Pointer) -> (r: (
    Option<(usize, u16, u16)>,
    Option<char>,
))
    ensures
        r == mode_marks(mode@, apps(applications@), *pointer),
{
    match mode {
        Mode::Resizing { app_idx, .. } => {
            let i: usize = *app_idx;
            if i >= applications.len() {
                return (None, None);
            }
            assert(apps(applications@)[i as int] == applications@[i as int]@);
            match applications[i].window() {
                Some(w) => {
                    let (pw, ph) = resize_preview_size(w, pointer);
                    (Some((i, pw, ph)), Some('┼'))
                },
                None => (None, None),
            }
        },
        _ => (None, None),
    }
}

fn is_window_sound(w: &Window) -> (r: bool)
    ensures
        r == window_fits(*w),
{
    w.width >= 2 && w.height >= 2 && w.is_sound()
}

fn do_all_fit(applications: &Vec<Application>, desktop: usize) -> (r: bool)
    ensures
        r == all_fit(apps(applications@), desktop),
{
    let ghost a = apps(applications@);
    let mut i: usize = 0;
    while i < applications.len()
        invariant
            i <= applications@.len(),
            a == apps(applications@),
            forall|k: int|
                0 <= k < i && (#[trigger] a[k]).desktop == desktop ==> (a[k].window() matches Some(w)
                    ==> window_fits(w)),
        decreases applications@.len() - i,
    {
        assert(a[i as int] == applications@[i as int]@);
        if applications[i].on_desktop(desktop) {
            match applications[i].window() {
                Some(w) => {
                    if !is_window_sound(w) {
                        return false;
                    }
                },
                None => {},
            }
        }
        i = i + 1;
    }
    true
}

fn does_preview_fit(f: &Frame) -> (r: bool)
    ensures
        r == preview_fits(f@),
{
    match f.resize_preview {
        Some((i, w, h)) => {
            if i >= f.applications.len() {
                return false;
            }
            assert(f@.apps[i as int] == f.applications@[i as int]@);
            let app = &f.applications[i];
            match app.window() {
                Some(win) => {
                    !app.on_desktop(f.current_desktop) || w >= 2 && h >= 1 && win.position_x as u32
                        + w as u32 <= 0xffff && win.position_y as u32 + h as u32 <= 0xffff
                },
                None => true,
            }
        },
        None => true,
    }
}

/// Whether everything that a frame shows has a place on the screen.
pub fn is_drawable(f: &Frame) -> (r: bool)
    ensures
        r == drawable(f@),
{
    if f.w < 2 || f.h < 3 || f.pointer.x == 0xffff || f.pointer.y == 0xffff {
        return false;
    }
    if !do_all_fit(f.applications, f.current_desktop) || !does_preview_fit(f) {
        return false;
    }
    match input_field(f) {
        Some((w, n, _)) => {
            w.width >= 2 && w.is_sound_frame() && n < 0xffff && w.position_x as usize
                + w.width as usize + n < 0xffff
        },
        None => true,
    }
}

} // verus!

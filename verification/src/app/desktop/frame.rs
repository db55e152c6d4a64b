//! Frames, the size of the screen, and what is selected on it.
use vstd::prelude::*;
use vstd::string::*;
use crate::app::desktop::{
    effects, is_within, terminal_mut, terminal_of, with_terminal, within, DeskModel, Desktop,
    Effect, EffectModel,
};
use crate::app::{apps, AppModel};
use crate::cmd::{entries, tick_all, ticks, CommandEntry, Poll};
use crate::num::max16;
use crate::os::Key;
use crate::terminal_backend::TerminalEvent;
use crate::text::{chars_of, texts};
use crate::ui::pointer::Pointer;
use crate::ui::render::{
    compute_render_state, drawable, frame_grid, is_drawable, is_on_tab, mode_marks, on_tab, render,
    rendered, Frame, FrameModel,
};
use crate::ui::screen::{BoxSelect, GridModel};
use crate::wm::{
    sync_terminal_window_metrics, synced, tab_layout, tabs, told_sizes, Mode, ModeModel,
};

verus! {

/// How long the pointer is shown behind the last use of the mouse.
pub const POINTER_MILLIS: u64 = 3000;

/// The sizes that sessions are told.
pub open spec fn told_effects(told: Seq<(usize, u16, u16)>) -> Seq<EffectModel> {
    Seq::new(
        told.len(),
        |i: int|
            EffectModel::Resize { session: told[i].0, cols: told[i].1, rows: told[i].2 },
    )
}

/// A coordinate moved by `d`, on a screen that is `size` wide or high.
pub open spec fn stepped_to(v: u16, d: int, size: u16) -> u16 {
    let most = max16(size, 1) - 1;
    if v + d < 0 {
        0
    } else if v + d > most {
        most as u16
    } else {
        (v + d) as u16
    }
}

/// The direction of an arrow key; right where it is none.
pub open spec fn direction(key: Key) -> (int, int) {
    match key {
        Key::Up | Key::ShiftUp => (0, -1),
        Key::Down | Key::ShiftDown => (0, 1),
        Key::Left | Key::ShiftLeft => (-1, 0),
        _ => (1, 0),
    }
}

/// The direction of an arrow key; right where it is none.
pub fn arrow_dir(key: Key) -> (r: (i32, i32))
    ensures
        (r.0 as int, r.1 as int) == direction(key),
{
    match key {
        Key::Up | Key::ShiftUp => (0, -1),
        Key::Down | Key::ShiftDown => (0, 1),
        Key::Left | Key::ShiftLeft => (-1, 0),
        _ => (1, 0),
    }
}

impl DeskModel {
    /// The windows fitted to what they hold.
    pub open spec fn synced(self) -> DeskModel {
        DeskModel {
            apps: self.apps.map_values(|a: AppModel| synced(a)),
            outbox: self.outbox + told_effects(told_sizes(self.apps)),
            ..self
        }
    }

    /// Whether the pointer is drawn: not where a text cursor marks the place, and
    /// in an interactive program only while the mouse is used.
    pub open spec fn shows_pointer(self, now: u64) -> bool {
        match self.mode {
            ModeModel::Typing => false,
            ModeModel::TerminalFocus { app_idx } => terminal_of(self.apps, app_idx) matches Some(t)
                && t.interactive && within(self.last_mouse, now, POINTER_MILLIS as int),
            _ => true,
        }
    }

    /// What a frame shows.
    pub open spec fn frame(self, now: u64) -> FrameModel {
        let typing = self.mode is Typing;
        let (resize_preview, cursor_interaction) = mode_marks(self.mode, self.apps, self.pointer);
        FrameModel {
            apps: self.apps,
            resize_preview,
            cursor_interaction,
            w: self.size.0,
            h: self.size.1,
            pointer: self.pointer,
            scroll_offset: self.scroll_offset,
            tab_scroll: self.tab_scroll,
            path: if typing {
                self.path
            } else {
                Seq::empty()
            },
            typing_input: if typing {
                Some((self.input, self.cursor))
            } else {
                None
            },
            commands: if typing {
                self.commands
            } else {
                Seq::empty()
            },
            panel_scroll: self.panel_scroll,
            desktop: self.desktop,
            focused: match self.mode {
                ModeModel::TerminalFocus { app_idx } => match terminal_of(self.apps, app_idx) {
                    Some(t) => Some((app_idx, t.cmd_input, t.input_cursor)),
                    None => None,
                },
                _ => None,
            },
            selection: self.sel,
            theme: self.config.theme,
            full_redraw: self.full_redraw,
            draw_pointer: self.shows_pointer(now),
        }
    }

    /// The desktop on a screen of another size. The pointer keeps its distance from
    /// the bottom.
    pub open spec fn resized(self, size: (u16, u16)) -> DeskModel {
        let y = size.1 - (self.size.1 - self.pointer.y);
        let y = if y < 0 {
            y + 0x10000
        } else if y > 0xffff {
            y - 0x10000
        } else {
            y
        };
        DeskModel {
            size,
            screen: GridModel::fresh(max16(size.0, 1) as int, max16(size.1, 1) as int),
            full_redraw: true,
            sel: None,
            pointer: Pointer { y: y as u16, ..self.pointer }.clamped(size.0, size.1),
            ..self
        }.tabs_fitted()
    }

    /// The first application from `from` on that is a terminal, unless something
    /// `changed` in this round of ticks.
    pub open spec fn ticks_next(self, from: int, changed: bool) -> Option<usize>
        decreases self.apps.len() - from,
    {
        if changed || from < 0 || from >= self.apps.len() {
            None
        } else if self.apps[from].terminal is Some {
            Some(from as usize)
        } else {
            self.ticks_next(from + 1, changed)
        }
    }

    /// Whether the pointer is on a tab that is too small for its title.
    pub open spec fn title_runs(self) -> bool {
        let list = tabs(self.apps, self.desktop, self.size.1, self.tab_scroll);
        let left: int = if self.size.0 >= 3 {
            self.size.0 - 3
        } else {
            0
        };
        self.pointer.x >= left && exists|k: int| #[trigger]
            runs_at(list, k, self.apps, self.pointer)
    }

    /// One second later, on a screen of the given size, and whether to draw.
    pub open spec fn second_passed(self, size: (u16, u16)) -> (DeskModel, bool) {
        let s = DeskModel {
            scroll_offset: if self.scroll_offset < usize::MAX {
                (self.scroll_offset + 1) as usize
            } else {
                0
            },
            ..self
        };
        let s = if size != self.size {
            s.resized(size)
        } else {
            s
        };
        (s, size != self.size || s.title_runs())
    }

    /// The selection taken one step on from where it is, or begun at the pointer.
    pub open spec fn selection_extended(self, dir: (int, int)) -> DeskModel {
        let pos = match self.sel_pos {
            Some(p) => p,
            None => (self.pointer.x, self.pointer.y),
        };
        let origin = match self.sel {
            Some(s) => s.anchor,
            None => (pos.1 as usize, pos.0 as usize),
        };
        let c = stepped_to(pos.0, dir.0, self.size.0);
        let r = stepped_to(pos.1, dir.1, self.size.1);
        DeskModel {
            sel_pos: Some((c, r)),
            sel: Some(BoxSelect { anchor: origin, extent: (r as usize, c as usize) }),
            ..self
        }
    }

    /// The text of the selected box.
    pub open spec fn selected_text(self) -> Seq<char> {
        let (top, bottom, left, right) = self.sel->0.span();
        self.screen.box_text(left as int, top as int, right as int, bottom as int)
    }

    /// The selection copied.
    pub open spec fn copied(self) -> DeskModel {
        if self.sel is Some {
            let text = self.selected_text();
            DeskModel { clipboard: text, ..self }.emitted(EffectModel::Copy { text }).deselected()
        } else {
            self
        }
    }
}

/// Whether the pointer is on tab `k`, and the tab is too small for its title.
pub open spec fn runs_at(
    list: Seq<(usize, u16, u16)>,
    k: int,
    a: Seq<AppModel>,
    p: Pointer,
) -> bool {
    0 <= k < list.len() && on_tab(p, list[k]) && a[list[k].0 as int].title.len() > list[k].2 - 2
}

impl Desktop {
    /// Fits the windows to what they hold.
    pub(crate) fn sync(&mut self)
        requires
            old(self).wf(),
        ensures
            final(self)@ == old(self)@.synced(),
            final(self).wf(),
    {
        let told = sync_terminal_window_metrics(&mut self.applications);
        let ghost start = effects(self.outbox@);
        let mut i: usize = 0;
        assert(told_effects(told@.take(0)) =~= Seq::empty());
        assert(start + Seq::<EffectModel>::empty() =~= start);
        while i < told.len()
            invariant
                i <= told@.len(),
                effects(self.outbox@) == start + told_effects(told@.take(i as int)),
                self@ == (DeskModel { outbox: effects(self.outbox@), ..self@ }),
                (DeskModel { outbox: start, ..self@ }) == (DeskModel {
                    apps: old(self)@.apps.map_values(|a: AppModel| synced(a)),
                    ..old(self)@
                }),
                start == old(self)@.outbox,
            decreases told@.len() - i,
        {
            let (session, cols, rows) = told[i];
            let ghost before = self@;
            self.emit(Effect::Resize { session, cols, rows });
            assert(told_effects(told@.take(i + 1)) =~= told_effects(told@.take(i as int)).push(
                EffectModel::Resize { session, cols, rows },
            ));
            assert((DeskModel { outbox: start, ..self@ }) =~= (DeskModel {
                outbox: start,
                ..before
            }));
            assert(effects(self.outbox@) =~= start + told_effects(told@.take(i + 1)));
            i = i + 1;
        }
        assert(told@.take(i as int) =~= told@);
        assert(self@ =~= old(self)@.synced());
    }

    /// Whether the mouse was used a moment ago.
    pub fn mouse_recent(&self, now: u64) -> (r: bool)
        ensures
            r == within(self@.last_mouse, now, POINTER_MILLIS as int),
    {
        is_within(self.last_mouse, now, POINTER_MILLIS)
    }

    /// Whether the pointer is drawn.
    pub fn draw_pointer(&self, now: u64) -> (r: bool)
        ensures
            r == self@.shows_pointer(now),
    {
        match &self.mode {
            Mode::Typing => false,
            Mode::TerminalFocus { app_idx } => {
                let i: usize = *app_idx;
                if i < self.applications.len() {
                    assert(self@.apps[i as int] == self.applications@[i as int]@);
                    match &self.applications[i].terminal {
                        Some(t) => t.interactive && self.mouse_recent(now),
                        None => false,
                    }
                } else {
                    false
                }
            },
            _ => true,
        }
    }

    /// Fits the windows to what they hold and writes out a frame. Says whether it
    /// did: nothing is written where a window does not lie within the coordinates
    /// that there are.
    pub fn draw(&mut self, out: &mut String, now: u64) -> (drawn: bool)
        requires
            old(self).wf(),
        ensures
            ({
                let s = old(self)@.synced();
                let f = s.frame(now);
                &&& drawn == drawable(f)
                &&& drawn ==> final(out)@ == rendered(old(out)@, f, s.screen) && final(self)@ == (
                DeskModel { screen: frame_grid(f), full_redraw: false, ..s })
                &&& !drawn ==> final(out)@ == old(out)@ && final(self)@ == s
            }),
            final(self).wf(),
    {
        self.sync();
        let ghost s = self@;
        let none: Vec<CommandEntry> = Vec::new();
        let (resize_preview, cursor_interaction) = compute_render_state(
            &self.mode,
            &self.applications,
            &self.pointer,
        );
        let draw_pointer = self.draw_pointer(now);
        let typing = matches!(self.mode, Mode::Typing);
        let focused_terminal = match &self.mode {
            Mode::TerminalFocus { app_idx } => {
                let i: usize = *app_idx;
                if i < self.applications.len() {
                    assert(self@.apps[i as int] == self.applications@[i as int]@);
                    match &self.applications[i].terminal {
                        Some(t) => Some((i, t.cmd_input.as_str(), t.input_cursor)),
                        None => None,
                    }
                } else {
                    None
                }
            },
            _ => None,
        };
        proof {
            reveal_strlit("");
        }
        let frame = Frame {
            applications: &self.applications,
            resize_preview,
            cursor_interaction,
            w: self.last_size.0,
            h: self.last_size.1,
            pointer: self.pointer,
            scroll_offset: self.scroll_offset,
            tab_scroll: self.tab_scroll,
            path: if typing {
                self.current_path.as_str()
            } else {
                ""
            },
            typing_input: if typing {
                Some((self.cmd_input.as_str(), self.cmd_cursor))
            } else {
                None
            },
            commands: if typing {
                self.commands.as_slice()
            } else {
                none.as_slice()
            },
            panel_scroll: self.panel_scroll,
            current_desktop: self.current_desktop,
            focused_terminal,
            selection: self.sel,
            theme: self.config.theme(),
            full_redraw: self.full_redraw,
            draw_pointer,
        };
        assert(frame@ =~= s.frame(now)) by {
            assert(entries(none@) =~= Seq::empty());
            assert(""@ =~= Seq::<char>::empty());
        }
        if !is_drawable(&frame) {
            return false;
        }
        render(out, &frame, &mut self.screen);
        self.full_redraw = false;
        assert(self@ =~= (DeskModel {
            screen: frame_grid(s.frame(now)),
            full_redraw: false,
            ..s
        }));
        true
    }

    /// What the running commands of the dock have come to. A round of ticks ends
    /// with the first that changes something.
    pub fn tick(&mut self, polls: &[Poll]) -> (changed: bool)
        requires
            old(self).wf(),
            polls@.len() == old(self)@.commands.len(),
        ensures
            final(self)@ == (DeskModel {
                commands: Seq::new(
                    polls@.len(),
                    |i: int|
                        old(self)@.commands[i].ticked(
                            texts(polls@[i].lines@),
                            polls@[i].exit_code,
                            polls@[i].closed,
                        ),
                ),
                ..old(self)@
            }),
            changed == exists|i: int|
                0 <= i < polls@.len() && #[trigger] ticks(old(self)@.commands[i], polls@[i]),
            final(self).wf(),
    {
        let changed = tick_all(&mut self.commands, polls);
        assert forall|i: int| 0 <= i < polls@.len() implies (#[trigger] entries(self.commands@)[i])
            == old(self)@.commands[i].ticked(
            texts(polls@[i].lines@),
            polls@[i].exit_code,
            polls@[i].closed,
        ) by {
            assert(entries(self.commands@)[i] == self.commands@[i]@);
        }
        proof {
            if changed {
                let i = choose|i: int|
                    0 <= i < polls@.len() && #[trigger] ticks(old(self).commands@[i]@, polls@[i]);
                assert(ticks(old(self)@.commands[i], polls@[i]));
            }
        }
        assert(self@ =~= (DeskModel {
            commands: Seq::new(
                polls@.len(),
                |i: int|
                    old(self)@.commands[i].ticked(
                        texts(polls@[i].lines@),
                        polls@[i].exit_code,
                        polls@[i].closed,
                    ),
            ),
            ..old(self)@
        }));
        changed
    }

    /// The terminal that is next in a round of ticks, from application `from` on. The
    /// round is over once something `changed`, or where no terminal is left.
    pub fn next_tick(&self, from: usize, changed: bool) -> (next: Option<usize>)
        ensures
            next == self@.ticks_next(from as int, changed),
            next matches Some(i) ==> from <= i < self@.apps.len() && terminal_of(
                self@.apps,
                i,
            ) is Some,
    {
        if changed {
            return None;
        }
        let mut i: usize = from;
        while i < self.applications.len()
            invariant
                from <= i,
                i <= self.applications@.len() || i == from,
                !changed,
                self@.ticks_next(from as int, changed) == self@.ticks_next(i as int, changed),
            decreases self.applications@.len() - i,
        {
            assert(self@.apps[i as int] == self.applications@[i as int]@);
            if self.applications[i].terminal.is_some() {
                return Some(i);
            }
            i = i + 1;
        }
        None
    }

    /// What a terminal's commands and its session have come to.
    pub fn tick_terminal(&mut self, app_idx: usize, polls: &[Poll], events: &[TerminalEvent<()>]) -> (
    changed: bool)
        requires
            old(self).wf(),
            terminal_of(old(self)@.apps, app_idx) matches Some(t) ==> polls@.len()
                == t.commands.len(),
        ensures
            match terminal_of(old(self)@.apps, app_idx) {
                Some(t) => {
                    &&& changed == t.tick_changes(polls@, events@)
                    &&& final(self)@ == (DeskModel {
                        apps: with_terminal(
                            old(self)@.apps,
                            app_idx as int,
                            t.commands_ticked(polls@).session_ticked(events@),
                        ),
                        ..old(self)@
                    })
                },
                None => !changed && final(self)@ == old(self)@,
            },
            final(self).wf(),
    {
        let mut changed = false;
        match terminal_mut(&mut self.applications, app_idx) {
            Some(t) => {
                changed = t.tick(polls, events);
            },
            None => {},
        }
        assert(self@ =~= (DeskModel { apps: self@.apps, ..old(self)@ }));
        changed
    }

    /// Once a second: titles run, and the screen may have another size. Says whether
    /// to draw.
    pub fn on_second_tick(&mut self, size: (u16, u16)) -> (changed: bool)
        requires
            old(self).wf(),
            size.1 >= 2,
        ensures
            (final(self)@, changed) == old(self)@.second_passed(size),
            final(self).wf(),
    {
        self.scroll_offset = self.scroll_offset.wrapping_add(1);
        let size_changed = size.0 != self.last_size.0 || size.1 != self.last_size.1;
        let ghost first = self@;
        if size_changed {
            self.pointer.y = size.1.wrapping_sub(self.last_size.1.wrapping_sub(self.pointer.y));
            self.last_size = size;
            self.screen.resize(size.0, size.1);
            self.full_redraw = true;
            self.sel = None;
            self.pointer.clamp_to_bounds(size.0, size.1);
            self.fit_tabs();
            assert(self@ =~= first.resized(size));
        }
        let runs = self.does_title_run();
        size_changed || runs
    }

    fn does_title_run(&self) -> (r: bool)
        ensures
            r == self@.title_runs(),
    {
        if self.pointer.x < self.last_size.0.saturating_sub(3) {
            return false;
        }
        let list = tab_layout(
            &self.applications,
            self.current_desktop,
            self.last_size.1,
            self.tab_scroll,
        );
        let mut k: usize = 0;
        while k < list.len()
            invariant
                k <= list@.len(),
                list@ == tabs(self@.apps, self@.desktop, self@.size.1, self@.tab_scroll),
                self.last_size.0 >= 3 ==> self.pointer.x >= self.last_size.0 - 3,
                forall|n: int|
                    0 <= n < list@.len() ==> (#[trigger] list@[n]).0 < self.applications@.len()
                        && list@[n].2 >= 6,
                forall|n: int| 0 <= n < k ==> !#[trigger] runs_at(list@, n, self@.apps, self.pointer),
            decreases list@.len() - k,
        {
            let one = list[k];
            assert(self@.apps[one.0 as int] == self.applications@[one.0 as int]@);
            let n: usize = chars_of(self.applications[one.0].title.as_str()).len();
            if is_on_tab(&self.pointer, &one) && n > (one.2 - 2) as usize {
                assert(runs_at(list@, k as int, self@.apps, self.pointer));
                assert(self@.pointer.x >= self@.size.0 - 3);
                assert(exists|n: int| #[trigger] runs_at(list@, n, self@.apps, self@.pointer));
                return true;
            }
            assert(!runs_at(list@, k as int, self@.apps, self.pointer));
            k = k + 1;
        }
        false
    }

    /// Takes the selection one step on.
    pub fn extend_screen_selection(&mut self, dir: (i32, i32))
        requires
            old(self).wf(),
            -1 <= dir.0 <= 1,
            -1 <= dir.1 <= 1,
        ensures
            final(self)@ == old(self)@.selection_extended((dir.0 as int, dir.1 as int)),
            final(self).wf(),
    {
        let pos = match self.sel_pos {
            Some(p) => p,
            None => (self.pointer.x, self.pointer.y),
        };
        let origin = match self.sel {
            Some(s) => s.anchor,
            None => (pos.1 as usize, pos.0 as usize),
        };
        let c: u16 = step_to(pos.0, dir.0, self.last_size.0);
        let r: u16 = step_to(pos.1, dir.1, self.last_size.1);
        self.sel_pos = Some((c, r));
        self.sel = Some(BoxSelect { anchor: origin, extent: (r as usize, c as usize) });
        assert(self@ =~= old(self)@.selection_extended((dir.0 as int, dir.1 as int)));
    }

    /// Copies the selected text. Says whether there was any selection.
    pub fn copy_screen_selection(&mut self) -> (done: bool)
        requires
            old(self).wf(),
        ensures
            final(self)@ == old(self)@.copied(),
            done == (old(self)@.sel is Some),
            final(self).wf(),
    {
        match self.sel {
            None => false,
            Some(s) => {
                let (top, bottom, left, right) = s.bounds();
                let text = self.screen.box_text(left, top, right, bottom);
                self.clipboard = text.clone();
                let ghost t = text@;
                assert(self@ =~= (DeskModel { clipboard: t, ..old(self)@ }));
                self.emit(Effect::Copy { text });
                self.deselect();
                true
            },
        }
    }

    /// The text to paste: that of the clipboard outside, else what was copied last.
    pub fn read_clipboard(&self, outside: Option<String>) -> (r: Option<String>)
        ensures
            match (outside, r) {
                (Some(s), Some(t)) => t@ == s@,
                (None, Some(t)) => t@ == self@.clipboard && t@.len() > 0,
                (None, None) => self@.clipboard.len() == 0,
                (Some(_), None) => false,
            },
    {
        match outside {
            Some(s) => Some(s),
            None => {
                if chars_of(self.clipboard.as_str()).len() == 0 {
                    None
                } else {
                    Some(self.clipboard.clone())
                }
            },
        }
    }
}

fn step_to(v: u16, d: i32, size: u16) -> (r: u16)
    requires
        -1 <= d <= 1,
    ensures
        r == stepped_to(v, d as int, size),
{
    let most: i32 = max16(size, 1) as i32 - 1;
    let to: i32 = v as i32 + d;
    if to < 0 {
        0
    } else if to > most {
        most as u16
    } else {
        to as u16
    }
}

/// A copied selection is gone from the screen, and its text is in the clipboard and
/// on its way out.
pub proof fn lemma_copy(d: DeskModel)
    requires
        d.sel is Some,
    ensures
        d.copied().sel is None,
        d.copied().clipboard == d.selected_text(),
        d.copied().outbox == d.outbox.push(EffectModel::Copy { text: d.selected_text() }),
        d.copied().copied() == d.copied(),
{
}

/// A selection step and the step back end where they began, away from the edge.
pub proof fn lemma_selection_steps(d: DeskModel, dir: (int, int))
    requires
        dir == (1int, 0int) || dir == (0int, 1int) || dir == (-1int, 0int) || dir == (0int, -1int),
        d.sel_pos matches Some(p) && 0 < p.0 < d.size.0 - 1 && 0 < p.1 < d.size.1 - 1,
    ensures
        ({
            let there = d.selection_extended(dir);
            let back = there.selection_extended((-dir.0, -dir.1));
            back.sel_pos == d.sel_pos && there.sel->0.anchor == back.sel->0.anchor
        }),
{
}

} // verus!

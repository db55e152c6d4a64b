//! How the desktop begins, and the layout that is kept between two runs.
use vstd::prelude::*;
use vstd::string::*;
use crate::app::desktop::frame::told_effects;
use crate::app::desktop::{recalled_entry, DeskModel, Desktop, Effect, EffectModel};
use crate::app::terminal::ShellSession;
use crate::app::{apps, AppModel, Application};
use crate::cmd::{clone_entries, entries, CommandEntry, EntryModel};
use crate::config::{Config, ConfigModel};
use crate::num::{max16, min16};
use crate::session::{clamp_desktop, SavedApp, SavedAppModel, Session, SessionModel};
use crate::text::{is_empty, push_text, texts, trim, trim_string};
use crate::ui::pointer::Pointer;
use crate::ui::screen::{GridModel, ScreenGrid};
use crate::ui::window::{Window, MIN_H, MIN_W};
use crate::ui::CMD_INPUT_X;
use crate::wm::{
    all_wf, next_id, opened, spawn_terminal_window_at, synced, terminal_title, told_sizes,
    top_layer, Mode, ModeModel, TerminalSpawn,
};

verus! {

/// A saved terminal, with what came of it outside.
pub struct Restored {
    pub app: SavedApp,
    /// Its directory is still there.
    pub path_exists: bool,
    /// The shell that was started for it.
    pub session: Option<ShellSession>,
}

/// A saved window on a screen of the given size.
pub open spec fn restored_window(a: SavedAppModel, size: (u16, u16)) -> Window {
    let most_w = max16(
        if size.0 >= 2 {
            (size.0 - 2) as u16
        } else {
            0
        },
        5,
    );
    let most_h = max16(
        if size.1 >= 4 {
            (size.1 - 4) as u16
        } else {
            0
        },
        3,
    );
    let w = min16(max16(a.w, MIN_W), most_w);
    let h = min16(max16(a.h, MIN_H), most_h);
    Window::plain(
        min16(
            a.x,
            if size.0 >= w {
                (size.0 - w) as u16
            } else {
                0
            },
        ),
        min16(
            a.y,
            if size.1 >= h + 3 {
                (size.1 - (h + 3)) as u16
            } else {
                0
            },
        ),
        w,
        h,
        0,
    )
}

/// A saved terminal, opened again.
pub open spec fn restored_app(
    r: Restored,
    size: (u16, u16),
    path: Seq<char>,
    commands: Seq<EntryModel>,
) -> AppModel {
    AppModel::with_shell(
        r.app@.title,
        restored_window(r.app@, size),
        if r.path_exists {
            r.app@.path
        } else {
            path
        },
        commands,
        r.session,
    ).on(clamp_desktop(r.app@.desktop as nat))
}

/// The first `n` saved terminals, opened again.
pub open spec fn restored_apps(
    list: Seq<Restored>,
    n: int,
    size: (u16, u16),
    path: Seq<char>,
    commands: Seq<EntryModel>,
) -> Seq<AppModel>
    decreases n,
{
    if n <= 0 {
        Seq::empty()
    } else {
        opened(
            restored_apps(list, n - 1, size, path, commands),
            restored_app(list[n - 1], size, path, commands),
        )
    }
}

/// Remembered lines as commands.
pub open spec fn recalled_all(lines: Seq<Seq<char>>, cwd: Seq<char>) -> Seq<EntryModel> {
    Seq::new(lines.len(), |i: int| recalled_entry(lines[i], cwd))
}

/// The lines of the shared history as commands, trimmed, without the blank ones.
pub open spec fn shared_entries(lines: Seq<Seq<char>>, cwd: Seq<char>) -> Seq<EntryModel>
    decreases lines.len(),
{
    if lines.len() == 0 {
        Seq::empty()
    } else {
        let front = shared_entries(lines.drop_last(), cwd);
        let line = trim(lines.last());
        if line.len() > 0 {
            front.push(recalled_entry(line, cwd))
        } else {
            front
        }
    }
}

/// What is saved of an application: a terminal with a window on the screen.
pub open spec fn saved_app(a: AppModel) -> Option<SavedAppModel> {
    match (a.terminal, a.window()) {
        (Some(t), Some(w)) => if a.is_menu || a.help is Some {
            None
        } else {
            Some(
                SavedAppModel {
                    title: a.title,
                    path: t.path,
                    desktop: a.desktop,
                    x: w.position_x,
                    y: w.position_y,
                    w: w.width,
                    h: w.height,
                },
            )
        },
        _ => None,
    }
}

/// What is saved of a list of applications.
pub open spec fn saved_apps(a: Seq<AppModel>) -> Seq<SavedAppModel>
    decreases a.len(),
{
    if a.len() == 0 {
        Seq::empty()
    } else {
        let front = saved_apps(a.drop_last());
        match saved_app(a.last()) {
            Some(s) => front.push(s),
            None => front,
        }
    }
}

/// The layout of the desktop.
pub open spec fn layout_of(d: DeskModel) -> SessionModel {
    SessionModel { current_desktop: d.desktop, apps: saved_apps(d.apps) }
}

/// The desktop as it begins.
pub open spec fn begun(
    path: Seq<char>,
    size: (u16, u16),
    config: ConfigModel,
    lines: Seq<Seq<char>>,
    desktop: Option<usize>,
    list: Seq<Restored>,
) -> DeskModel {
    let commands = recalled_all(lines, path);
    let a = restored_apps(list, list.len() as int, size, path, commands);
    DeskModel {
        mode: ModeModel::Normal,
        scroll_offset: 0,
        tab_scroll: 0,
        panel_scroll: 0,
        desktop: match desktop {
            Some(d) => clamp_desktop(d as nat),
            None => 1,
        },
        next_id: next_id(list.len() as usize),
        last_space: None,
        path,
        input: Seq::empty(),
        cursor: 0,
        index: None,
        draft: None,
        size,
        pointer: Pointer { x: CMD_INPUT_X, y: (size.1 - 2) as u16 },
        apps: a.map_values(|m: AppModel| synced(m)),
        commands,
        screen: GridModel::fresh(max16(size.0, 1) as int, max16(size.1, 1) as int),
        sel: None,
        sel_pos: None,
        clipboard: Seq::empty(),
        config,
        full_redraw: true,
        last_mouse: None,
        mouse_enabled: true,
        mouse_down: None,
        mouse_selecting: false,
        quit: false,
        outbox: told_effects(told_sizes(a)),
    }
}

proof fn lemma_renamed(a: Seq<AppModel>, one: AppModel, title: Seq<char>)
    ensures
        opened(a, AppModel { title, ..one }) == opened(a, one).update(
            a.len() as int,
            AppModel { title, ..opened(a, one)[a.len() as int] },
        ),
{
    let other = AppModel { title, ..one };
    let n = a.len() as int;
    lemma_same_top(a.push(one), a.push(other), n + 1);
    assert(a.push(one).remove(n) =~= a);
    assert(a.push(other).remove(n) =~= a);
    assert(opened(a, other) =~= opened(a, one).update(
        n,
        AppModel { title, ..opened(a, one)[n] },
    ));
}

proof fn lemma_same_top(a: Seq<AppModel>, b: Seq<AppModel>, n: int)
    requires
        0 <= n <= a.len(),
        a.len() == b.len(),
        forall|i: int| 0 <= i < n ==> (#[trigger] a[i]).display == b[i].display,
    ensures
        top_layer(a, n) == top_layer(b, n),
    decreases n,
{
    if n > 0 {
        lemma_same_top(a, b, n - 1);
        assert(a[n - 1].display == b[n - 1].display);
    }
}

fn recall_all(lines: &[String], cwd: &str) -> (v: Vec<CommandEntry>)
    ensures
        entries(v@) == recalled_all(texts(lines@), cwd@),
{
    let mut v: Vec<CommandEntry> = Vec::new();
    while v.len() < lines.len()
        invariant
            v@.len() <= lines@.len(),
            forall|k: int|
                0 <= k < v@.len() ==> (#[trigger] v@[k])@ == recalled_entry(lines@[k]@, cwd@),
        decreases lines@.len() - v@.len(),
    {
        v.push(recall_one(lines[v.len()].as_str(), cwd));
    }
    assert(entries(v@) =~= recalled_all(texts(lines@), cwd@));
    v
}

fn recall_one(line: &str, cwd: &str) -> (e: CommandEntry)
    ensures
        e@ == recalled_entry(line@, cwd@),
{
    let mut out: Vec<String> = Vec::new();
    push_text(&mut out, line.to_owned());
    assert(texts(out@) =~= seq![line@]);
    CommandEntry::completed(line, cwd, out)
}

fn clamp_number(d: usize) -> (r: usize)
    ensures
        r == clamp_desktop(d as nat),
{
    if d < 1 {
        1
    } else if d > 4 {
        4
    } else {
        d
    }
}

fn place_window(a: &SavedApp, size: (u16, u16)) -> (w: Window)
    ensures
        w == restored_window(a@, size),
        w.layer == 0,
{
    let w: u16 = min16(max16(a.w, MIN_W), max16(size.0.saturating_sub(2), 5));
    let h: u16 = min16(max16(a.h, MIN_H), max16(size.1.saturating_sub(4), 3));
    Window::new(
        min16(a.x, size.0.saturating_sub(w)),
        min16(a.y, size.1.saturating_sub(h + 3)),
        w,
        h,
        0,
    )
}

impl DeskModel {
    /// The layout on its way out.
    pub open spec fn saved(self) -> DeskModel {
        self.emitted(EffectModel::Save { layout: layout_of(self) })
    }
}

impl Desktop {
    /// The desktop at its beginning: on a screen of the given size, with the lines of
    /// the shared history and the saved layout.
    pub fn new(
        path: String,
        size: (u16, u16),
        config: Config,
        lines: &[String],
        desktop: Option<usize>,
        list: &[Restored],
    ) -> (d: Desktop)
        requires
            size.1 >= 2,
        ensures
            d@ == begun(path@, size, config@, texts(lines@), desktop, list@),
            d.wf(),
    {
        let commands = recall_all(lines, path.as_str());
        let ghost all = entries(commands@);
        let mut applications: Vec<Application> = Vec::new();
        let mut id: usize = 1;
        let mut i: usize = 0;
        assert(apps(applications@) =~= Seq::empty());
        while i < list.len()
            invariant
                i <= list@.len(),
                applications@.len() == i,
                all == entries(commands@),
                all == recalled_all(texts(lines@), path@),
                apps(applications@) == restored_apps(list@, i as int, size, path@, all),
                all_wf(apps(applications@)),
            decreases list@.len() - i,
        {
            let one = &list[i];
            let copies = clone_entries(&commands);
            assert(entries(copies@) =~= all) by {
                assert forall|k: int| 0 <= k < all.len() implies entries(copies@)[k] == all[k] by {
                    assert(entries(copies@)[k] == copies@[k]@);
                    assert(all[k] == commands@[k]@);
                    assert(all[k].runner is None);
                }
            }
            let w = place_window(&one.app, size);
            let cwd = if one.path_exists {
                one.app.path.clone()
            } else {
                path.clone()
            };
            let ghost before = apps(applications@);
            let ghost first = id;
            let at = spawn_terminal_window_at(
                &mut applications,
                &mut id,
                TerminalSpawn {
                    desktop: clamp_number(one.app.desktop),
                    x: w.position_x,
                    y: w.position_y,
                    w: w.width,
                    h: w.height,
                    path: cwd,
                    commands: copies,
                },
                one.session,
            );
            let ghost spawned = apps(applications@);
            let ghost named = AppModel::with_shell(
                terminal_title(first),
                w,
                cwd@,
                all,
                one.session,
            ).on(clamp_desktop(one.app@.desktop as nat));
            proof {
                lemma_renamed(before, named, one.app@.title);
                assert(AppModel { title: one.app@.title, ..named } =~= restored_app(
                    *one,
                    size,
                    path@,
                    all,
                ));
            }
            assert(at < applications@.len());
            assert(spawned[at as int] == applications@[at as int]@);
            applications[at].title = one.app.title.clone();
            assert(apps(applications@) =~= spawned.update(
                at as int,
                AppModel { title: one.app@.title, ..spawned[at as int] },
            ));
            i = i + 1;
        }
        let mut d = Desktop {
            mode: Mode::Normal,
            scroll_offset: 0,
            tab_scroll: 0,
            panel_scroll: 0,
            current_desktop: match desktop {
                Some(n) => clamp_number(n),
                None => 1,
            },
            next_terminal_id: list.len().saturating_add(1),
            last_space_time: None,
            current_path: path,
            cmd_input: String::new(),
            cmd_cursor: 0,
            history_index: None,
            history_draft: None,
            last_size: size,
            pointer: Pointer::new(CMD_INPUT_X, size.1 - 2),
            applications,
            commands,
            screen: ScreenGrid::new(size.0, size.1),
            sel: None,
            sel_pos: None,
            clipboard: String::new(),
            config,
            full_redraw: true,
            last_mouse: None,
            mouse_enabled: true,
            mouse_down: None,
            mouse_selecting: false,
            quit: false,
            outbox: Vec::new(),
        };
        assert(d@.outbox =~= Seq::empty());
        d.sync();
        assert(d@ =~= begun(path@, size, config@, texts(lines@), desktop, list@));
        d
    }

    /// The commands that a new terminal begins with: the lines of the shared history.
    pub fn shared_history_commands(&self, lines: &[String]) -> (v: Vec<CommandEntry>)
        ensures
            entries(v@) == shared_entries(texts(lines@), self@.path),
    {
        let ghost all = texts(lines@);
        let mut v: Vec<CommandEntry> = Vec::new();
        let mut i: usize = 0;
        assert(all.take(0) =~= Seq::empty());
        assert(entries(v@) =~= Seq::empty());
        while i < lines.len()
            invariant
                i <= lines@.len(),
                all == texts(lines@),
                entries(v@) == shared_entries(all.take(i as int), self@.path),
            decreases lines@.len() - i,
        {
            assert(all.take(i + 1).drop_last() =~= all.take(i as int));
            assert(all.take(i + 1).last() == lines@[i as int]@);
            let line = trim_string(lines[i].as_str());
            if !is_empty(line.as_str()) {
                let e = recall_one(line.as_str(), self.current_path.as_str());
                let ghost before = entries(v@);
                let ghost m = e@;
                v.push(e);
                assert(entries(v@) =~= before.push(m));
            }
            i = i + 1;
        }
        assert(all.take(i as int) =~= all);
        v
    }

    /// The layout as it is saved.
    pub fn layout(&self) -> (s: Session)
        ensures
            s@ == layout_of(self@),
    {
        let ghost a = self@.apps;
        let mut list: Vec<SavedApp> = Vec::new();
        let ghost mut views: Seq<SavedAppModel> = Seq::empty();
        let mut i: usize = 0;
        assert(a.take(0) =~= Seq::empty());
        while i < self.applications.len()
            invariant
                i <= self.applications@.len(),
                a == apps(self.applications@),
                views == saved_apps(a.take(i as int)),
                views == Seq::new(list@.len(), |k: int| list@[k]@),
            decreases self.applications@.len() - i,
        {
            let app = &self.applications[i];
            assert(a.take(i + 1).drop_last() =~= a.take(i as int));
            assert(a.take(i + 1).last() == app@);
            if !app.is_menu && app.help.is_none() {
                match (&app.terminal, app.window()) {
                    (Some(t), Some(w)) => {
                        let one = SavedApp {
                            title: app.title.clone(),
                            path: t.path.clone(),
                            desktop: app.desktop,
                            x: w.position_x,
                            y: w.position_y,
                            w: w.width,
                            h: w.height,
                        };
                        assert(saved_app(app@) == Some(one@)) by {
                            assert(one@ =~= saved_app(app@)->0);
                        }
                        let ghost before = views;
                        let ghost m = one@;
                        list.push(one);
                        proof {
                            views = before.push(m);
                        }
                        assert(views =~= Seq::new(list@.len(), |k: int| list@[k]@));
                    },
                    _ => {},
                }
            }
            i = i + 1;
        }
        assert(a.take(i as int) =~= a);
        let s = Session { current_desktop: self.current_desktop, apps: list };
        assert(s@.apps =~= views);
        assert(s@ =~= layout_of(self@));
        s
    }

    /// Sends the layout out to be saved.
    pub fn save_session(&mut self)
        requires
            old(self).wf(),
        ensures
            final(self)@ == old(self)@.saved(),
            final(self).wf(),
    {
        let layout = self.layout();
        self.emit(Effect::Save { layout });
    }
}

/// Only terminals on the screen are saved, and each where it stands.
pub proof fn lemma_saved(a: Seq<AppModel>, k: int)
    requires
        0 <= k < saved_apps(a).len(),
    ensures
        exists|i: int| 0 <= i < a.len() && #[trigger] saved_app(a[i]) == Some(saved_apps(a)[k]),
        saved_apps(a).len() <= a.len(),
    decreases a.len(),
{
    if a.len() > 0 {
        let front = saved_apps(a.drop_last());
        if k < front.len() {
            lemma_saved(a.drop_last(), k);
            let i = choose|i: int|
                0 <= i < a.len() - 1 && #[trigger] saved_app(a.drop_last()[i]) == Some(front[k]);
            assert(saved_app(a[i]) == Some(saved_apps(a)[k]));
        } else {
            assert(saved_app(a[a.len() - 1]) == Some(saved_apps(a)[k]));
            if front.len() > 0 {
                lemma_saved(a.drop_last(), 0);
            }
        }
    }
}

/// A saved window that fits the screen comes back where it was.
pub proof fn lemma_restored_in_place(a: SavedAppModel, size: (u16, u16))
    requires
        MIN_W <= a.w <= size.0 - 2,
        MIN_H <= a.h <= size.1 - 4,
        a.x + a.w <= size.0,
        a.y + a.h + 3 <= size.1,
    ensures
        restored_window(a, size) == Window::plain(a.x, a.y, a.w, a.h, 0),
{
}

} // verus!

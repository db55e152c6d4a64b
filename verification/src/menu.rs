//! The start menu: its entries, read from a JSON manifest, and the selection in
//! the open menu.
use vstd::prelude::*;
use vstd::string::*;
use crate::json::{document, fault_text, find_field, Json, JsonModel};
use crate::session::clamp_desktop;
use crate::text::{
    begins_with, chars_are, chars_of, clone_texts, is_empty, lower_all, lower_chars, push_chars,
    push_text, slice_chars, texts, to_text, trim, trim_chars,
};

verus! {

#[derive(Debug, Clone, Copy, PartialEq, Eq, Structural)]
pub enum MenuKind {
    /// An interactive app that fills its terminal.
    App,
    /// A terminal window with a shell.
    Terminal,
    /// A terminal window whose shell runs one command line.
    Command,
}

/// The kind with a name in lower case.
pub open spec fn kind_named(v: Seq<char>) -> Option<MenuKind> {
    if v == "app"@ {
        Some(MenuKind::App)
    } else if v == "terminal"@ || v == "shell"@ {
        Some(MenuKind::Terminal)
    } else if v == "command"@ || v == "cmd"@ || v == "run"@ {
        Some(MenuKind::Command)
    } else {
        None
    }
}

impl MenuKind {
    /// The kind that a text names, whatever its case and the space around it.
    pub fn parse(value: &str) -> (r: Option<MenuKind>)
        ensures
            r == kind_named(lower_all(trim(value@))),
    {
        let v = lower_chars(&trim_chars(&chars_of(value)));
        if chars_are(&v, "app") {
            Some(MenuKind::App)
        } else if chars_are(&v, "terminal") || chars_are(&v, "shell") {
            Some(MenuKind::Terminal)
        } else if chars_are(&v, "command") || chars_are(&v, "cmd") || chars_are(&v, "run") {
            Some(MenuKind::Command)
        } else {
            None
        }
    }
}

/// One entry of the start menu.
#[derive(Debug)]
pub struct MenuItem {
    pub label: String,
    pub kind: MenuKind,
    pub command: String,
    pub args: Vec<String>,
    pub cwd: Option<String>,
    pub desktop: Option<usize>,
}

#[verifier::ext_equal]
pub struct MenuItemModel {
    pub label: Seq<char>,
    pub kind: MenuKind,
    pub command: Seq<char>,
    pub args: Seq<Seq<char>>,
    pub cwd: Option<Seq<char>>,
    pub desktop: Option<usize>,
}

impl View for MenuItem {
    type V = MenuItemModel;

    open spec fn view(&self) -> MenuItemModel {
        MenuItemModel {
            label: self.label@,
            kind: self.kind,
            command: self.command@,
            args: texts(self.args@),
            cwd: match self.cwd {
                Some(s) => Some(s@),
                None => None,
            },
            desktop: self.desktop,
        }
    }
}

impl Clone for MenuItem {
    fn clone(&self) -> (r: MenuItem)
        ensures
            r@ == self@,
    {
        let r = MenuItem {
            label: self.label.clone(),
            kind: self.kind,
            command: self.command.clone(),
            args: clone_texts(&self.args),
            cwd: match &self.cwd {
                Some(s) => Some(s.clone()),
                None => None,
            },
            desktop: self.desktop,
        };
        assert(r@ =~= self@);
        r
    }
}

/// `line` with the words of `args` behind it, a blank between any two.
pub open spec fn with_args(line: Seq<char>, args: Seq<Seq<char>>) -> Seq<char>
    decreases args.len(),
{
    if args.len() == 0 {
        line
    } else {
        let front = with_args(line, args.drop_last());
        if front.len() == 0 {
            args.last()
        } else {
            front.push(' ') + args.last()
        }
    }
}

/// `rest` below the directory `home`.
pub open spec fn joined_path(home: Seq<char>, rest: Seq<char>) -> Seq<char> {
    if rest.len() > 0 && rest[0] == '/' {
        rest
    } else if home.len() == 0 || home.last() == '/' {
        home + rest
    } else {
        home.push('/') + rest
    }
}

/// `rest` below the directory `home`.
pub fn join_path(home: &[char], rest: &[char]) -> (out: String)
    ensures
        out@ == joined_path(home@, rest@),
{
    let mut out = String::new();
    if rest.len() > 0 && rest[0] == '/' {
        push_chars(&mut out, rest);
        assert(out@ =~= joined_path(home@, rest@));
        return out;
    }
    push_chars(&mut out, home);
    if home.len() > 0 && home[home.len() - 1] != '/' {
        out.push('/');
    }
    push_chars(&mut out, rest);
    assert(out@ =~= joined_path(home@, rest@));
    out
}

/// `path` with a leading `~` replaced by the home directory, where it is known.
pub open spec fn tilde_expanded(path: Seq<char>, home: Option<Seq<char>>) -> Seq<char> {
    match home {
        Some(h) => if path == "~"@ {
            h
        } else if "~/"@.is_prefix_of(path) {
            joined_path(h, path.skip("~/"@.len() as int))
        } else {
            path
        },
        None => path,
    }
}

/// `path` with a leading `~` replaced by the home directory, where it is known.
pub fn expand_tilde(path: &[char], home: Option<&str>) -> (r: String)
    ensures
        r@ == tilde_expanded(
            path@,
            match home {
                Some(h) => Some(h@),
                None => None,
            },
        ),
{
    match home {
        Some(h) => {
            if chars_are(path, "~") {
                return h.to_owned();
            }
            let tilde = chars_of("~/");
            if begins_with(path, &tilde) {
                let rest = slice_chars(path, tilde.len(), path.len());
                assert(rest@ =~= path@.skip(tilde@.len() as int));
                return join_path(&chars_of(h), &rest);
            }
        },
        None => {},
    }
    to_text(path)
}

/// The directory of an entry; `path` where it names none.
pub open spec fn item_cwd(i: MenuItemModel, path: Seq<char>, home: Option<Seq<char>>) -> Seq<char> {
    match i.cwd {
        Some(cwd) => if trim(cwd).len() > 0 {
            tilde_expanded(trim(cwd), home)
        } else {
            path
        },
        None => path,
    }
}

/// The program that an entry starts in place of the shell of a terminal. An app
/// without a command is the shell itself.
pub open spec fn item_program(i: MenuItemModel, shell: Seq<char>) -> Option<Seq<char>> {
    let line = with_args(trim(i.command), i.args);
    if i.kind != MenuKind::App {
        None
    } else if line.len() == 0 {
        Some(shell)
    } else {
        Some(line)
    }
}

/// What an entry starts, and where.
pub struct MenuStart {
    /// The program of an app; `None` where a terminal's shell is started.
    pub program: Option<String>,
    pub cwd: String,
}

impl MenuItem {
    /// What the entry starts. `path` is the directory where it names none.
    pub fn start(&self, path: &str, home: Option<&str>, shell: &str) -> (s: MenuStart)
        ensures
            s.cwd@ == item_cwd(
                self@,
                path@,
                match home {
                    Some(h) => Some(h@),
                    None => None,
                },
            ),
            item_program(self@, shell@) == (match s.program {
                Some(p) => Some(p@),
                None => None,
            }),
    {
        let cwd = self.resolve_cwd(path, home);
        let program = match self.kind {
            MenuKind::App => {
                let line = self.command_line();
                if is_empty(line.as_str()) {
                    Some(shell.to_owned())
                } else {
                    Some(line)
                }
            },
            _ => None,
        };
        MenuStart { program, cwd }
    }

    /// The command line of the entry: its command and arguments.
    pub fn command_line(&self) -> (line: String)
        ensures
            line@ == with_args(trim(self@.command), self@.args),
    {
        let mut line = to_text(&trim_chars(&chars_of(self.command.as_str())));
        let ghost args = self@.args;
        let mut i: usize = 0;
        assert(args.take(0) =~= Seq::empty());
        while i < self.args.len()
            invariant
                i <= self.args@.len(),
                args == self@.args,
                line@ == with_args(trim(self@.command), args.take(i as int)),
            decreases self.args@.len() - i,
        {
            assert(args.take(i + 1).drop_last() =~= args.take(i as int));
            assert(args.take(i + 1).last() == self.args@[i as int]@);
            let ghost front = line@;
            if !line.as_str().is_empty() {
                line.push(' ');
            }
            line.append(self.args[i].as_str());
            assert(line@ =~= with_args(trim(self@.command), args.take(i + 1)));
            i = i + 1;
        }
        assert(args.take(i as int) =~= args);
        line
    }

    /// The entry's working directory with a leading `~` expanded, or `fallback`
    /// where it names none.
    pub fn resolve_cwd(&self, fallback: &str, home: Option<&str>) -> (r: String)
        ensures
            r@ == item_cwd(
                self@,
                fallback@,
                match home {
                    Some(h) => Some(h@),
                    None => None,
                },
            ),
    {
        match &self.cwd {
            Some(cwd) => {
                let v = trim_chars(&chars_of(cwd.as_str()));
                if v.len() > 0 {
                    return expand_tilde(&v, home);
                }
            },
            None => {},
        }
        fallback.to_owned()
    }
}

/// The open start menu: its entries, the selected one, and how many rows have
/// scrolled off its top.
pub struct MenuState {
    pub items: Vec<MenuItem>,
    pub selected: usize,
    pub scroll: usize,
}

#[verifier::ext_equal]
pub struct MenuModel {
    pub items: Seq<MenuItemModel>,
    pub selected: usize,
    pub scroll: usize,
}

impl View for MenuState {
    type V = MenuModel;

    open spec fn view(&self) -> MenuModel {
        MenuModel {
            items: Seq::new(self.items@.len(), |i: int| self.items@[i]@),
            selected: self.selected,
            scroll: self.scroll,
        }
    }
}

impl MenuModel {
    /// The menu scrolled so that the selected row is among `visible` rows.
    pub open spec fn selection_shown(self, visible: usize) -> MenuModel {
        let rows: int = if visible < 1 {
            1
        } else {
            visible as int
        };
        let most: int = if self.items.len() > rows {
            self.items.len() - rows
        } else {
            0
        };
        let scroll: int = if self.scroll > most {
            most
        } else {
            self.scroll as int
        };
        MenuModel {
            scroll: (if self.selected < scroll {
                self.selected as int
            } else if self.selected >= scroll + rows {
                self.selected + 1 - rows
            } else {
                scroll
            }) as usize,
            ..self
        }
    }
}

/// The selected row is always among the visible ones, of which there is at least one.
/// Where it is an entry, the menu is not scrolled further than to its last row. The
/// selection and the entries stay, and so does the scroll position where it need not
/// change.
pub proof fn lemma_selection_shown(m: MenuModel, visible: usize)
    ensures
        ({
            let n = m.selection_shown(visible);
            let rows: int = if visible < 1 {
                1
            } else {
                visible as int
            };
            &&& n.items == m.items
            &&& n.selected == m.selected
            &&& n.scroll <= n.selected < n.scroll + rows
            &&& m.selected < m.items.len() ==> n.scroll == 0 || n.scroll + rows <= m.items.len()
            &&& m.scroll <= m.selected < m.scroll + rows && (m.scroll == 0 || m.scroll + rows
                <= m.items.len()) ==> n == m
        }),
{
}

impl MenuState {
    pub fn new(items: Vec<MenuItem>) -> (s: MenuState)
        ensures
            s.items == items,
            s.selected == 0,
            s.scroll == 0,
    {
        MenuState { items, selected: 0, scroll: 0 }
    }

    /// Scrolls so that the selected row is among the `visible` rows of the window.
    pub fn keep_selected_visible(&mut self, visible: usize)
        ensures
            final(self)@ == old(self)@.selection_shown(visible),
            final(self).items == old(self).items,
            final(self).selected == old(self).selected,
    {
        let rows: usize = if visible < 1 {
            1
        } else {
            visible
        };
        let most: usize = self.items.len().saturating_sub(rows);
        if self.scroll > most {
            self.scroll = most;
        }
        if self.selected < self.scroll {
            self.scroll = self.selected;
        } else if self.selected - self.scroll >= rows {
            self.scroll = self.selected - (rows - 1);
        }
        assert(self@ =~= old(self)@.selection_shown(visible));
    }
}

// ── The manifest ─────────────────────────────────────────────────────────────

/// The text of the first field named `key`, where it is a string.
pub open spec fn text_field(f: Seq<(Seq<char>, JsonModel)>, key: Seq<char>) -> Option<Seq<char>> {
    match find_field(f, key) {
        Some(JsonModel::Str(t)) => Some(t),
        _ => None,
    }
}

/// The strings of an array, where it holds nothing else.
pub open spec fn strings_of(items: Seq<JsonModel>) -> Option<Seq<Seq<char>>>
    decreases items.len(),
{
    if items.len() == 0 {
        Some(Seq::empty())
    } else {
        match (strings_of(items.drop_last()), items.last()) {
            (Some(v), JsonModel::Str(t)) => Some(v.push(t)),
            _ => None,
        }
    }
}

/// The arguments of an entry: one string, an array of strings, or none.
pub open spec fn args_of(v: Option<JsonModel>) -> Result<Seq<Seq<char>>, Seq<char>> {
    match v {
        None => Ok(Seq::empty()),
        Some(JsonModel::Str(t)) => Ok(seq![t]),
        Some(JsonModel::Arr(items)) => match strings_of(items) {
            Some(args) => Ok(args),
            None => Err("args entries must be strings"@),
        },
        Some(_) => Err("args must be a string or an array of strings"@),
    }
}

/// The entry that an object describes. Its label is what it is given, else its
/// command, else `Start`; its kind is `App` unless another is named.
pub open spec fn item_of(m: JsonModel) -> Result<MenuItemModel, Seq<char>> {
    match m {
        JsonModel::Obj(f) => {
            let command = match text_field(f, "command"@) {
                Some(t) => t,
                None => Seq::empty(),
            };
            let named = text_field(f, "label"@);
            let label = if named is Some && trim(named->0).len() > 0 {
                named->0
            } else if trim(command).len() > 0 {
                trim(command)
            } else {
                "Start"@
            };
            let kind = match text_field(f, "kind"@) {
                Some(t) => match kind_named(lower_all(trim(t))) {
                    Some(k) => k,
                    None => MenuKind::App,
                },
                None => MenuKind::App,
            };
            let desktop = match find_field(f, "desktop"@) {
                Some(v) => match v.whole() {
                    Some(n) => Some(clamp_desktop(n)),
                    None => None,
                },
                None => None,
            };
            match args_of(find_field(f, "args"@)) {
                Ok(args) => Ok(
                    MenuItemModel { label, kind, command, args, cwd: text_field(f, "cwd"@), desktop },
                ),
                Err(e) => Err(e),
            }
        },
        _ => Err("menu item must be an object"@),
    }
}

/// The entries that a list describes, or what is wrong with the first that does
/// not describe one.
pub open spec fn items_of(items: Seq<JsonModel>) -> Result<Seq<MenuItemModel>, Seq<char>>
    decreases items.len(),
{
    if items.len() == 0 {
        Ok(Seq::empty())
    } else {
        match items_of(items.drop_last()) {
            Err(e) => Err(e),
            Ok(v) => match item_of(items.last()) {
                Ok(i) => Ok(v.push(i)),
                Err(e) => Err(e),
            },
        }
    }
}

/// The entries of a manifest: an array of them, an object with such an array
/// under `items`, or an object that is one entry itself.
pub open spec fn manifest_of(m: JsonModel) -> Result<Seq<MenuItemModel>, Seq<char>> {
    match m {
        JsonModel::Arr(items) => items_of(items),
        JsonModel::Obj(f) => match find_field(f, "items"@) {
            Some(JsonModel::Arr(items)) => items_of(items),
            _ => match item_of(m) {
                Ok(i) => Ok(seq![i]),
                Err(e) => Err(e),
            },
        },
        _ => Err("manifest root must be an object or an array"@),
    }
}

/// Whether an executable list of entries is what the manifest says.
pub open spec fn items_agree(
    r: Result<Vec<MenuItem>, String>,
    m: Result<Seq<MenuItemModel>, Seq<char>>,
) -> bool {
    match (r, m) {
        (Ok(v), Ok(w)) => Seq::new(v@.len(), |i: int| v@[i]@) == w,
        (Err(t), Err(e)) => t@ == e,
        _ => false,
    }
}

fn read_text(json: &Json, key: &str) -> (r: Option<String>)
    ensures
        match r {
            Some(s) => json.model().field(key@) == Some(JsonModel::Str(s@)),
            None => match json.model().field(key@) {
                Some(JsonModel::Str(_)) => false,
                _ => true,
            },
        },
{
    match json.field(key) {
        Some(v) => match v.str_value() {
            Some(t) => Some(t.to_owned()),
            None => None,
        },
        None => None,
    }
}

fn read_strings(items: &[Json], Ghost(m): Ghost<Seq<JsonModel>>) -> (r: Option<Vec<String>>)
    requires
        m.len() == items@.len(),
        forall|k: int| 0 <= k < m.len() ==> #[trigger] items@[k].model() == m[k],
    ensures
        match r {
            Some(v) => strings_of(m) == Some(texts(v@)),
            None => strings_of(m) is None,
        },
{
    let mut v: Vec<String> = Vec::new();
    let mut i: usize = 0;
    assert(m.take(0) =~= Seq::empty());
    assert(texts(v@) =~= Seq::empty());
    while i < items.len()
        invariant
            i <= items@.len(),
            m.len() == items@.len(),
            forall|k: int| 0 <= k < m.len() ==> #[trigger] items@[k].model() == m[k],
            strings_of(m.take(i as int)) == Some(texts(v@)),
        decreases items@.len() - i,
    {
        assert(m.take(i + 1).drop_last() =~= m.take(i as int));
        assert(m.take(i + 1).last() == items@[i as int].model());
        match items[i].str_value() {
            Some(t) => push_text(&mut v, t.to_owned()),
            None => {
                proof {
                    lemma_strings_prefix(m, i + 1);
                }
                return None;
            },
        }
        i = i + 1;
    }
    assert(m.take(i as int) =~= m);
    Some(v)
}

proof fn lemma_strings_prefix(m: Seq<JsonModel>, n: int)
    requires
        0 <= n <= m.len(),
        strings_of(m.take(n)) is None,
    ensures
        strings_of(m) is None,
    decreases m.len(),
{
    if n == m.len() {
        assert(m.take(n) =~= m);
    } else {
        assert(m.drop_last().take(n) =~= m.take(n));
        lemma_strings_prefix(m.drop_last(), n);
    }
}

fn read_args(json: &Json) -> (r: Result<Vec<String>, String>)
    ensures
        match (r, args_of(json.model().field("args"@))) {
            (Ok(v), Ok(w)) => texts(v@) == w,
            (Err(t), Err(e)) => t@ == e,
            _ => false,
        },
{
    let mut args: Vec<String> = Vec::new();
    match json.field("args") {
        None => {
            assert(texts(args@) =~= Seq::empty());
            Ok(args)
        },
        Some(v) => {
            match v.str_value() {
                Some(t) => {
                    push_text(&mut args, t.to_owned());
                    assert(texts(args@) =~= seq![t@]);
                    return Ok(args);
                },
                None => {},
            }
            match v.as_arr() {
                Some(items) => match read_strings(items, Ghost(v.model()->Arr_0)) {
                    Some(w) => Ok(w),
                    None => Err("args entries must be strings".to_owned()),
                },
                None => Err("args must be a string or an array of strings".to_owned()),
            }
        },
    }
}

/// The entry that a JSON value describes.
pub fn item_from_json(json: &Json) -> (r: Result<MenuItem, String>)
    ensures
        match (r, item_of(json.model())) {
            (Ok(i), Ok(m)) => i@ == m,
            (Err(t), Err(e)) => t@ == e,
            _ => false,
        },
{
    match json {
        Json::Obj(_) => {},
        _ => {
            return Err("menu item must be an object".to_owned());
        },
    }
    let command = match read_text(json, "command") {
        Some(t) => t,
        None => String::new(),
    };
    let trimmed = trim_chars(&chars_of(command.as_str()));
    let mut label = if trimmed.len() > 0 {
        to_text(&trimmed)
    } else {
        "Start".to_owned()
    };
    match read_text(json, "label") {
        Some(t) => {
            if trim_chars(&chars_of(t.as_str())).len() > 0 {
                label = t;
            }
        },
        None => {},
    }
    let kind = match read_text(json, "kind") {
        Some(t) => match MenuKind::parse(t.as_str()) {
            Some(k) => k,
            None => MenuKind::App,
        },
        None => MenuKind::App,
    };
    let args = match read_args(json) {
        Ok(v) => v,
        Err(e) => {
            return Err(e);
        },
    };
    let cwd = read_text(json, "cwd");
    let desktop = match json.field("desktop") {
        Some(v) => match v.as_whole() {
            Some(n) => {
                let d: usize = if n < 1 {
                    1
                } else if n > 4 {
                    4
                } else {
                    n as usize
                };
                Some(d)
            },
            None => None,
        },
        None => None,
    };
    let item = MenuItem { label, kind, command, args, cwd, desktop };
    assert(item@ =~= item_of(json.model())->Ok_0);
    Ok(item)
}

fn read_items(entries: &[Json], Ghost(m): Ghost<Seq<JsonModel>>) -> (r: Result<
    Vec<MenuItem>,
    String,
>)
    requires
        m.len() == entries@.len(),
        forall|k: int| 0 <= k < m.len() ==> #[trigger] entries@[k].model() == m[k],
    ensures
        items_agree(r, items_of(m)),
{
    let mut v: Vec<MenuItem> = Vec::new();
    let mut i: usize = 0;
    assert(m.take(0) =~= Seq::empty());
    assert(Seq::new(v@.len(), |k: int| v@[k]@) =~= Seq::empty());
    while i < entries.len()
        invariant
            i <= entries@.len(),
            m.len() == entries@.len(),
            forall|k: int| 0 <= k < m.len() ==> #[trigger] entries@[k].model() == m[k],
            items_of(m.take(i as int)) == Ok::<Seq<MenuItemModel>, Seq<char>>(
                Seq::new(v@.len(), |k: int| v@[k]@),
            ),
        decreases entries@.len() - i,
    {
        let ghost before = Seq::new(v@.len(), |k: int| v@[k]@);
        assert(m.take(i + 1).drop_last() =~= m.take(i as int));
        assert(m.take(i + 1).last() == entries@[i as int].model());
        match item_from_json(&entries[i]) {
            Ok(item) => {
                let ghost one = item@;
                v.push(item);
                assert(Seq::new(v@.len(), |k: int| v@[k]@) =~= before.push(one));
            },
            Err(e) => {
                proof {
                    lemma_items_prefix(m, i + 1);
                }
                return Err(e);
            },
        }
        i = i + 1;
    }
    assert(m.take(i as int) =~= m);
    Ok(v)
}

proof fn lemma_items_prefix(m: Seq<JsonModel>, n: int)
    requires
        0 <= n <= m.len(),
        items_of(m.take(n)) is Err,
    ensures
        items_of(m) == items_of(m.take(n)),
    decreases m.len(),
{
    if n == m.len() {
        assert(m.take(n) =~= m);
    } else {
        assert(m.drop_last().take(n) =~= m.take(n));
        lemma_items_prefix(m.drop_last(), n);
    }
}

fn items_from_json(json: &Json) -> (r: Result<Vec<MenuItem>, String>)
    ensures
        items_agree(r, manifest_of(json.model())),
{
    match json.as_arr() {
        Some(entries) => {
            return read_items(entries, Ghost(json.model()->Arr_0));
        },
        None => {},
    }
    match json {
        Json::Obj(_) => {},
        _ => {
            return Err("manifest root must be an object or an array".to_owned());
        },
    }
    match json.field("items") {
        Some(v) => match v.as_arr() {
            Some(entries) => {
                return read_items(entries, Ghost(v.model()->Arr_0));
            },
            None => {},
        },
        None => {},
    }
    match item_from_json(json) {
        Ok(item) => {
            let ghost one = item@;
            let mut v: Vec<MenuItem> = Vec::new();
            v.push(item);
            assert(Seq::new(v@.len(), |k: int| v@[k]@) =~= seq![one]);
            Ok(v)
        },
        Err(e) => Err(e),
    }
}

/// The entries of a manifest's text.
pub fn parse(source: &str) -> (r: Result<Vec<MenuItem>, String>)
    ensures
        match document(source@) {
            Ok(m) => items_agree(r, manifest_of(m)),
            Err(e) => r matches Err(t) && t@ == fault_text(source@, e),
        },
{
    match crate::json::parse(source) {
        Ok(json) => items_from_json(&json),
        Err(e) => Err(e),
    }
}

} // verus!

//! The user's configuration: the desktop theme and the shortcuts.
//!
//! It is read from a JSON text over the defaults. Unknown names are passed over,
//! and what cannot be read keeps its default, so that a broken text breaks
//! nothing.
use vstd::prelude::*;
use crate::json::{document, parse, Json, JsonModel};
use crate::os::Key;
use crate::text::{begins_with, chars_are, chars_of, lower_all, lower_chars, slice_chars, trim, trim_chars};

verus! {

/// What a shortcut does.
#[derive(Clone, Copy, PartialEq, Eq, Debug, Structural)]
pub enum Action {
    NewTerminal,
    CloseWindow,
    ToggleMaximize,
    StartMenu,
    Help,
    SplitVertical,
    SplitHorizontal,
    Minimize,
    FocusNext,
    FocusPrev,
    ResizeActive,
    ToggleMouse,
    Quit,
}

#[derive(Debug)]
pub struct Config {
    pub theme: u16,
    shortcuts: Vec<(Key, Action)>,
}

#[verifier::ext_equal]
pub struct ConfigModel {
    pub theme: u16,
    /// Each key with what it does; of two entries for a key the later one counts.
    pub shortcuts: Seq<(Key, Action)>,
}

impl View for Config {
    type V = ConfigModel;

    closed spec fn view(&self) -> ConfigModel {
        ConfigModel { theme: self.theme, shortcuts: self.shortcuts@ }
    }
}

// ── Shortcuts ────────────────────────────────────────────────────────────────

/// The bindings that neither use `key` nor do `action`.
pub open spec fn others(s: Seq<(Key, Action)>, action: Action, key: Key) -> Seq<(Key, Action)>
    decreases s.len(),
{
    if s.len() == 0 {
        Seq::empty()
    } else {
        let front = others(s.drop_last(), action, key);
        if s.last().0 != key && s.last().1 != action {
            front.push(s.last())
        } else {
            front
        }
    }
}

/// What `key` does under the bindings `s`.
pub open spec fn bound(s: Seq<(Key, Action)>, key: Key) -> Option<Action>
    decreases s.len(),
{
    if s.len() == 0 {
        None
    } else if s.last().0 == key {
        Some(s.last().1)
    } else {
        bound(s.drop_last(), key)
    }
}

/// The bindings that everyone starts with.
pub open spec fn default_bindings() -> Seq<(Key, Action)> {
    seq![
        (Key::CtrlT, Action::NewTerminal),
        (Key::CtrlW, Action::CloseWindow),
        (Key::CtrlF, Action::ToggleMaximize),
        (Key::CtrlD, Action::StartMenu),
        (Key::CtrlH, Action::Help),
        (Key::F1, Action::Help),
        (Key::AltV, Action::SplitVertical),
        (Key::AltH, Action::SplitHorizontal),
        (Key::CtrlX, Action::Minimize),
        (Key::CtrlN, Action::FocusNext),
        (Key::CtrlP, Action::FocusPrev),
        (Key::AltR, Action::ResizeActive),
        (Key::AltM, Action::ToggleMouse),
        (Key::CtrlDelete, Action::Quit),
    ]
}

impl ConfigModel {
    pub open spec fn default_with(theme: u16) -> ConfigModel {
        ConfigModel { theme, shortcuts: default_bindings() }
    }

    /// `action` moved to `key`.
    pub open spec fn assigned(self, action: Action, key: Key) -> ConfigModel {
        ConfigModel {
            shortcuts: others(self.shortcuts, action, key).push((key, action)),
            ..self
        }
    }

    pub open spec fn resolved(self, key: Key) -> Option<Action> {
        bound(self.shortcuts, key)
    }

    /// The shortcuts of the fields `f` assigned, from the first to the last.
    pub open spec fn with_fields(self, f: Seq<(Seq<char>, JsonModel)>) -> ConfigModel
        decreases f.len(),
    {
        if f.len() == 0 {
            self
        } else {
            self.with_fields(f.drop_last()).with_field(f.last())
        }
    }

    /// The shortcut of one field assigned, where its name is an action and its
    /// value a key.
    pub open spec fn with_field(self, f: (Seq<char>, JsonModel)) -> ConfigModel {
        match f.1 {
            JsonModel::Str(t) => match (action_named(lower_all(trim(f.0))), key_named(t)) {
                (Some(action), Some(key)) => self.assigned(action, key),
                _ => self,
            },
            _ => self,
        }
    }

    /// What a document asks for, over this configuration.
    pub open spec fn with_document(self, m: JsonModel) -> ConfigModel {
        let themed = match m.field("theme"@) {
            Some(v) => match v.whole() {
                Some(n) => ConfigModel {
                    theme: if n < 2 {
                        n as u16
                    } else {
                        2
                    },
                    ..self
                },
                None => self,
            },
            None => self,
        };
        match m.field("shortcuts"@) {
            Some(JsonModel::Obj(f)) => themed.with_fields(f),
            _ => themed,
        }
    }
}

/// The action with a name in lower case.
pub open spec fn action_named(v: Seq<char>) -> Option<Action> {
    if v == "terminal"@ || v == "new_terminal"@ {
        Some(Action::NewTerminal)
    } else if v == "close"@ || v == "close_window"@ {
        Some(Action::CloseWindow)
    } else if v == "maximize"@ || v == "toggle_maximize"@ {
        Some(Action::ToggleMaximize)
    } else if v == "start_menu"@ || v == "menu"@ {
        Some(Action::StartMenu)
    } else if v == "help"@ {
        Some(Action::Help)
    } else if v == "split_vertical"@ || v == "split_v"@ {
        Some(Action::SplitVertical)
    } else if v == "split_horizontal"@ || v == "split_h"@ {
        Some(Action::SplitHorizontal)
    } else if v == "minimize"@ {
        Some(Action::Minimize)
    } else if v == "focus_next"@ || v == "next"@ {
        Some(Action::FocusNext)
    } else if v == "focus_prev"@ || v == "prev"@ {
        Some(Action::FocusPrev)
    } else if v == "resize"@ || v == "resize_active"@ {
        Some(Action::ResizeActive)
    } else if v == "mouse"@ || v == "toggle_mouse"@ {
        Some(Action::ToggleMouse)
    } else if v == "quit"@ {
        Some(Action::Quit)
    } else {
        None
    }
}

fn find_action_named(v: &[char]) -> (r: Option<Action>)
    ensures
        r == action_named(v@),
{
    if chars_are(v, "terminal") || chars_are(v, "new_terminal") {
        Some(Action::NewTerminal)
    } else if chars_are(v, "close") || chars_are(v, "close_window") {
        Some(Action::CloseWindow)
    } else if chars_are(v, "maximize") || chars_are(v, "toggle_maximize") {
        Some(Action::ToggleMaximize)
    } else if chars_are(v, "start_menu") || chars_are(v, "menu") {
        Some(Action::StartMenu)
    } else if chars_are(v, "help") {
        Some(Action::Help)
    } else if chars_are(v, "split_vertical") || chars_are(v, "split_v") {
        Some(Action::SplitVertical)
    } else if chars_are(v, "split_horizontal") || chars_are(v, "split_h") {
        Some(Action::SplitHorizontal)
    } else if chars_are(v, "minimize") {
        Some(Action::Minimize)
    } else if chars_are(v, "focus_next") || chars_are(v, "next") {
        Some(Action::FocusNext)
    } else if chars_are(v, "focus_prev") || chars_are(v, "prev") {
        Some(Action::FocusPrev)
    } else if chars_are(v, "resize") || chars_are(v, "resize_active") {
        Some(Action::ResizeActive)
    } else if chars_are(v, "mouse") || chars_are(v, "toggle_mouse") {
        Some(Action::ToggleMouse)
    } else if chars_are(v, "quit") {
        Some(Action::Quit)
    } else {
        None
    }
}

/// The key that goes with Ctrl.
pub open spec fn ctrl_named(v: Seq<char>) -> Option<Key> {
    if v == "1"@ {
        Some(Key::Ctrl1)
    } else if v == "2"@ {
        Some(Key::Ctrl2)
    } else if v == "3"@ {
        Some(Key::Ctrl3)
    } else if v == "4"@ {
        Some(Key::Ctrl4)
    } else if v == "c"@ {
        Some(Key::CtrlC)
    } else if v == "d"@ {
        Some(Key::CtrlD)
    } else if v == "e"@ {
        Some(Key::CtrlE)
    } else if v == "f"@ {
        Some(Key::CtrlF)
    } else if v == "h"@ {
        Some(Key::CtrlH)
    } else if v == "j"@ {
        Some(Key::CtrlJ)
    } else if v == "k"@ {
        Some(Key::CtrlK)
    } else if v == "l"@ {
        Some(Key::CtrlL)
    } else if v == "n"@ {
        Some(Key::CtrlN)
    } else if v == "p"@ {
        Some(Key::CtrlP)
    } else if v == "q"@ {
        Some(Key::CtrlQ)
    } else if v == "w"@ {
        Some(Key::CtrlW)
    } else if v == "v"@ {
        Some(Key::CtrlV)
    } else if v == "x"@ {
        Some(Key::CtrlX)
    } else if v == "z"@ {
        Some(Key::CtrlZ)
    } else if v == "t"@ {
        Some(Key::CtrlT)
    } else if v == "delete"@ {
        Some(Key::CtrlDelete)
    } else if v == "enter"@ {
        Some(Key::CtrlEnter)
    } else {
        None
    }
}

fn find_ctrl_named(v: &[char]) -> (r: Option<Key>)
    ensures
        r == ctrl_named(v@),
{
    if chars_are(v, "1") {
        Some(Key::Ctrl1)
    } else if chars_are(v, "2") {
        Some(Key::Ctrl2)
    } else if chars_are(v, "3") {
        Some(Key::Ctrl3)
    } else if chars_are(v, "4") {
        Some(Key::Ctrl4)
    } else if chars_are(v, "c") {
        Some(Key::CtrlC)
    } else if chars_are(v, "d") {
        Some(Key::CtrlD)
    } else if chars_are(v, "e") {
        Some(Key::CtrlE)
    } else if chars_are(v, "f") {
        Some(Key::CtrlF)
    } else if chars_are(v, "h") {
        Some(Key::CtrlH)
    } else if chars_are(v, "j") {
        Some(Key::CtrlJ)
    } else if chars_are(v, "k") {
        Some(Key::CtrlK)
    } else if chars_are(v, "l") {
        Some(Key::CtrlL)
    } else if chars_are(v, "n") {
        Some(Key::CtrlN)
    } else if chars_are(v, "p") {
        Some(Key::CtrlP)
    } else if chars_are(v, "q") {
        Some(Key::CtrlQ)
    } else if chars_are(v, "w") {
        Some(Key::CtrlW)
    } else if chars_are(v, "v") {
        Some(Key::CtrlV)
    } else if chars_are(v, "x") {
        Some(Key::CtrlX)
    } else if chars_are(v, "z") {
        Some(Key::CtrlZ)
    } else if chars_are(v, "t") {
        Some(Key::CtrlT)
    } else if chars_are(v, "delete") {
        Some(Key::CtrlDelete)
    } else if chars_are(v, "enter") {
        Some(Key::CtrlEnter)
    } else {
        None
    }
}

/// The key that goes with Alt.
pub open spec fn alt_named(v: Seq<char>) -> Option<Key> {
    if v == "v"@ {
        Some(Key::AltV)
    } else if v == "h"@ {
        Some(Key::AltH)
    } else if v == "r"@ {
        Some(Key::AltR)
    } else if v == "m"@ {
        Some(Key::AltM)
    } else if v == "up"@ {
        Some(Key::AltUp)
    } else if v == "down"@ {
        Some(Key::AltDown)
    } else if v == "left"@ {
        Some(Key::AltLeft)
    } else if v == "right"@ {
        Some(Key::AltRight)
    } else {
        None
    }
}

fn find_alt_named(v: &[char]) -> (r: Option<Key>)
    ensures
        r == alt_named(v@),
{
    if chars_are(v, "v") {
        Some(Key::AltV)
    } else if chars_are(v, "h") {
        Some(Key::AltH)
    } else if chars_are(v, "r") {
        Some(Key::AltR)
    } else if chars_are(v, "m") {
        Some(Key::AltM)
    } else if chars_are(v, "up") {
        Some(Key::AltUp)
    } else if chars_are(v, "down") {
        Some(Key::AltDown)
    } else if chars_are(v, "left") {
        Some(Key::AltLeft)
    } else if chars_are(v, "right") {
        Some(Key::AltRight)
    } else {
        None
    }
}

/// The keys that stand alone.
pub open spec fn single_named(v: Seq<char>) -> Option<Key> {
    if v == "enter"@ {
        Some(Key::Enter)
    } else if v == "space"@ {
        Some(Key::Char(' '))
    } else if v == "escape"@ || v == "esc"@ {
        Some(Key::Escape)
    } else if v == "f1"@ {
        Some(Key::F1)
    } else {
        None
    }
}

fn find_single_named(v: &[char]) -> (r: Option<Key>)
    ensures
        r == single_named(v@),
{
    if chars_are(v, "enter") {
        Some(Key::Enter)
    } else if chars_are(v, "space") {
        Some(Key::Char(' '))
    } else if chars_are(v, "escape") || chars_are(v, "esc") {
        Some(Key::Escape)
    } else if chars_are(v, "f1") {
        Some(Key::F1)
    } else {
        None
    }
}

/// The key that a text such as `ctrl+t`, `alt+v`, `enter` or `space` names. White
/// space around it and the case of its letters do not matter.
pub open spec fn key_named(t: Seq<char>) -> Option<Key> {
    let v = lower_all(trim(t));
    if "ctrl+"@.is_prefix_of(v) {
        ctrl_named(v.skip("ctrl+"@.len() as int))
    } else if "alt+"@.is_prefix_of(v) {
        alt_named(v.skip("alt+"@.len() as int))
    } else {
        single_named(v)
    }
}

/// The action with the name `name`.
pub fn action_for_name(name: &str) -> (r: Option<Action>)
    ensures
        r == action_named(lower_all(trim(name@))),
{
    let v = lower_chars(&trim_chars(&chars_of(name)));
    find_action_named(&v)
}

/// The key that `spec` names.
pub fn parse_shortcut(spec: &str) -> (r: Option<Key>)
    ensures
        r == key_named(spec@),
{
    let v = lower_chars(&trim_chars(&chars_of(spec)));
    let ctrl = chars_of("ctrl+");
    let alt = chars_of("alt+");
    if begins_with(&v, &ctrl) {
        let rest = slice_chars(&v, ctrl.len(), v.len());
        assert(rest@ =~= v@.skip(ctrl@.len() as int));
        find_ctrl_named(&rest)
    } else if begins_with(&v, &alt) {
        let rest = slice_chars(&v, alt.len(), v.len());
        assert(rest@ =~= v@.skip(alt@.len() as int));
        find_alt_named(&rest)
    } else {
        find_single_named(&v)
    }
}

/// The bindings that everyone starts with.
fn default_shortcuts() -> (v: Vec<(Key, Action)>)
    ensures
        v@ == default_bindings(),
{
    let mut v: Vec<(Key, Action)> = Vec::new();
    v.push((Key::CtrlT, Action::NewTerminal));
    v.push((Key::CtrlW, Action::CloseWindow));
    v.push((Key::CtrlF, Action::ToggleMaximize));
    v.push((Key::CtrlD, Action::StartMenu));
    v.push((Key::CtrlH, Action::Help));
    v.push((Key::F1, Action::Help));
    v.push((Key::AltV, Action::SplitVertical));
    v.push((Key::AltH, Action::SplitHorizontal));
    v.push((Key::CtrlX, Action::Minimize));
    v.push((Key::CtrlN, Action::FocusNext));
    v.push((Key::CtrlP, Action::FocusPrev));
    v.push((Key::AltR, Action::ResizeActive));
    v.push((Key::AltM, Action::ToggleMouse));
    v.push((Key::CtrlDelete, Action::Quit));
    assert(v@ =~= default_bindings());
    v
}

impl Config {
    /// The defaults with a theme.
    pub fn new(theme: u16) -> (c: Config)
        ensures
            c@ == ConfigModel::default_with(theme),
    {
        Config { theme, shortcuts: default_shortcuts() }
    }

    /// The theme of the desktop.
    pub fn theme(&self) -> (t: u16)
        ensures
            t == self@.theme,
    {
        self.theme
    }

    /// Moves `action` to `key`; a binding that used the key or did the action goes.
    pub fn assign(&mut self, action: Action, key: Key)
        ensures
            final(self)@ == old(self)@.assigned(action, key),
    {
        let ghost all = self.shortcuts@;
        let mut kept: Vec<(Key, Action)> = Vec::new();
        let mut i: usize = 0;
        assert(all.take(0) =~= Seq::empty());
        while i < self.shortcuts.len()
            invariant
                i <= all.len(),
                self.shortcuts@ == all,
                self.theme == old(self).theme,
                kept@ == others(all.take(i as int), action, key),
            decreases all.len() - i,
        {
            let ghost next = all.take(i + 1);
            assert(next.drop_last() =~= all.take(i as int));
            let (k, a) = self.shortcuts[i];
            assert(next.last() == (k, a));
            if k != key && a != action {
                kept.push((k, a));
            }
            i = i + 1;
        }
        assert(all.take(i as int) =~= all);
        kept.push((key, action));
        self.shortcuts = kept;
    }

    /// What `key` does, if anything.
    pub fn resolve(&self, key: &Key) -> (r: Option<Action>)
        ensures
            r == self@.resolved(*key),
    {
        let ghost all = self.shortcuts@;
        let mut i: usize = self.shortcuts.len();
        assert(all.take(i as int) =~= all);
        while i > 0
            invariant
                i <= all.len(),
                all == self.shortcuts@,
                bound(all.take(i as int), *key) == bound(all, *key),
            decreases i,
        {
            let (k, a) = self.shortcuts[i - 1];
            assert(all.take(i as int).drop_last() =~= all.take(i - 1));
            assert(all.take(i as int).last() == (k, a));
            if k == *key {
                return Some(a);
            }
            i = i - 1;
        }
        None
    }

    /// Takes over the shortcuts of an object's fields.
    fn assign_fields(&mut self, fields: &Vec<(String, Json)>, Ghost(f): Ghost<
        Seq<(Seq<char>, JsonModel)>,
    >)
        requires
            f.len() == fields@.len(),
            forall|k: int|
                0 <= k < f.len() ==> #[trigger] f[k] == (fields@[k].0@, fields@[k].1.model()),
        ensures
            final(self)@ == old(self)@.with_fields(f),
    {
        let mut i: usize = 0;
        assert(f.take(0) =~= Seq::empty());
        while i < fields.len()
            invariant
                i <= fields@.len(),
                f.len() == fields@.len(),
                forall|k: int|
                    0 <= k < f.len() ==> #[trigger] f[k] == (fields@[k].0@, fields@[k].1.model()),
                self@ == old(self)@.with_fields(f.take(i as int)),
            decreases fields@.len() - i,
        {
            let ghost next = f.take(i + 1);
            assert(next.drop_last() =~= f.take(i as int));
            assert(next.last() == f[i as int]);
            match fields[i].1.str_value() {
                Some(t) => {
                    let action = action_for_name(fields[i].0.as_str());
                    let key = parse_shortcut(t);
                    match (action, key) {
                        (Some(a), Some(k)) => self.assign(a, k),
                        _ => {},
                    }
                },
                None => {},
            }
            i = i + 1;
        }
        assert(f.take(i as int) =~= f);
    }

    /// The configuration that a text asks for, over the defaults. A text that is no
    /// JSON gives the defaults.
    pub fn from_source(source: &str) -> (c: Config)
        ensures
            c@ == (match document(source@) {
                Ok(m) => ConfigModel::default_with(1).with_document(m),
                Err(_) => ConfigModel::default_with(1),
            }),
    {
        let mut config = Config::new(1);
        let json = match parse(source) {
            Ok(j) => j,
            Err(_) => {
                return config;
            },
        };
        match json.field("theme") {
            Some(v) => match v.as_whole() {
                Some(n) => {
                    config.theme = if n < 2 {
                        n as u16
                    } else {
                        2
                    };
                },
                None => {},
            },
            None => {},
        }
        match json.field("shortcuts") {
            Some(v) => match v {
                Json::Obj(fields) => {
                    let ghost f = v.model()->Obj_0;
                    config.assign_fields(fields, Ghost(f));
                },
                _ => {},
            },
            None => {},
        }
        config
    }
}

// ── Laws ─────────────────────────────────────────────────────────────────────

proof fn lemma_others(s: Seq<(Key, Action)>, action: Action, key: Key, k: Key)
    ensures
        forall|i: int|
            0 <= i < others(s, action, key).len() ==> (#[trigger] others(s, action, key)[i]).0
                != key && others(s, action, key)[i].1 != action,
        k != key && bound(s, k) != Some(action) ==> bound(others(s, action, key), k) == bound(s, k),
    decreases s.len(),
{
    if s.len() > 0 {
        lemma_others(s.drop_last(), action, key, k);
        let front = others(s.drop_last(), action, key);
        if s.last().0 != key && s.last().1 != action {
            assert(front.push(s.last()).drop_last() =~= front);
        }
    }
}

/// After `assign` the key does the action, no other key does, and every other key
/// that did something else still does it.
pub proof fn lemma_assign(c: ConfigModel, action: Action, key: Key, other: Key)
    requires
        other != key,
    ensures
        c.assigned(action, key).resolved(key) == Some(action),
        c.assigned(action, key).resolved(other) != Some(action),
        c.resolved(other) != Some(action) ==> c.assigned(action, key).resolved(other) == c.resolved(
            other,
        ),
        c.assigned(action, key).theme == c.theme,
{
    let s = others(c.shortcuts, action, key);
    lemma_others(c.shortcuts, action, key, other);
    assert(s.push((key, action)).drop_last() =~= s);
    lemma_bound_in(s, other);
}

proof fn lemma_bound_in(s: Seq<(Key, Action)>, key: Key)
    ensures
        bound(s, key) matches Some(a) ==> exists|i: int|
            0 <= i < s.len() && #[trigger] s[i] == (key, a),
    decreases s.len(),
{
    if s.len() > 0 {
        if s.last().0 == key {
            assert(s[s.len() - 1] == (key, s.last().1));
        } else {
            lemma_bound_in(s.drop_last(), key);
            if bound(s, key) is Some {
                let a = bound(s, key)->0;
                let i = choose|i: int|
                    0 <= i < s.drop_last().len() && #[trigger] s.drop_last()[i] == (key, a);
                assert(s[i] == (key, a));
            }
        }
    }
}

} // verus!

//! The session between two runs: the open terminal windows and the desktop that
//! is shown, as a JSON text.
use vstd::prelude::*;
use vstd::string::*;
use crate::json::{document, Json, JsonModel};
use crate::text::{chars_of, dec, push_dec};

verus! {

/// A terminal window to open again.
#[derive(Debug, Clone)]
pub struct SavedApp {
    pub title: String,
    pub path: String,
    pub desktop: usize,
    pub x: u16,
    pub y: u16,
    pub w: u16,
    pub h: u16,
}

#[derive(Debug)]
pub struct Session {
    pub current_desktop: usize,
    pub apps: Vec<SavedApp>,
}

#[verifier::ext_equal]
pub struct SavedAppModel {
    pub title: Seq<char>,
    pub path: Seq<char>,
    pub desktop: usize,
    pub x: u16,
    pub y: u16,
    pub w: u16,
    pub h: u16,
}

#[verifier::ext_equal]
pub struct SessionModel {
    pub current_desktop: usize,
    pub apps: Seq<SavedAppModel>,
}

impl View for SavedApp {
    type V = SavedAppModel;

    open spec fn view(&self) -> SavedAppModel {
        SavedAppModel {
            title: self.title@,
            path: self.path@,
            desktop: self.desktop,
            x: self.x,
            y: self.y,
            w: self.w,
            h: self.h,
        }
    }
}

impl View for Session {
    type V = SessionModel;

    open spec fn view(&self) -> SessionModel {
        SessionModel {
            current_desktop: self.current_desktop,
            apps: Seq::new(self.apps@.len(), |i: int| self.apps@[i]@),
        }
    }
}

impl Default for Session {
    fn default() -> (s: Session)
        ensures
            s@ == (SessionModel { current_desktop: 0, apps: Seq::empty() }),
    {
        let s = Session { current_desktop: 0, apps: Vec::new() };
        assert(s@.apps =~= Seq::empty());
        s
    }
}

// ── Writing ──────────────────────────────────────────────────────────────────

/// How a character is written in a string.
pub open spec fn escape(c: char) -> Seq<char> {
    if c == '"' {
        seq!['\\', '"']
    } else if c == '\\' {
        seq!['\\', '\\']
    } else if c == '\n' {
        seq!['\\', 'n']
    } else if c == '\r' {
        seq!['\\', 'r']
    } else if c == '\t' {
        seq!['\\', 't']
    } else {
        seq![c]
    }
}

pub open spec fn escaped(t: Seq<char>) -> Seq<char>
    decreases t.len(),
{
    if t.len() == 0 {
        Seq::empty()
    } else {
        escape(t[0]) + escaped(t.drop_first())
    }
}

/// `t` as a JSON string.
pub open spec fn quoted(t: Seq<char>) -> Seq<char> {
    seq!['"'] + escaped(t) + seq!['"']
}

/// A field of an object.
pub open spec fn field_text(key: Seq<char>, value: Seq<char>) -> Seq<char> {
    quoted(key) + seq![':', ' '] + value
}

/// A saved window as an object.
#[verifier::opaque]
pub open spec fn app_text(a: SavedAppModel) -> Seq<char> {
    seq!['{'] + field_text("title"@, quoted(a.title)) + seq![','] + field_text(
        "path"@,
        quoted(a.path),
    ) + seq![','] + field_text("desktop"@, dec(a.desktop as nat)) + seq![','] + field_text(
        "x"@,
        dec(a.x as nat),
    ) + seq![','] + field_text("y"@, dec(a.y as nat)) + seq![','] + field_text(
        "w"@,
        dec(a.w as nat),
    ) + seq![','] + field_text("h"@, dec(a.h as nat)) + seq!['}']
}

/// The windows from `i` on, a line each.
pub open spec fn apps_text(apps: Seq<SavedAppModel>, i: int) -> Seq<char>
    decreases apps.len() - i,
{
    if i < 0 || i >= apps.len() {
        Seq::empty()
    } else {
        "    "@ + app_text(apps[i]) + (if i + 1 < apps.len() {
            seq![',', '\n']
        } else {
            seq!['\n']
        }) + apps_text(apps, i + 1)
    }
}

/// A session as it is saved.
pub open spec fn session_text(s: SessionModel) -> Seq<char> {
    "{\n  "@ + field_text("current_desktop"@, dec(s.current_desktop as nat)) + ",\n  "@
        + field_text("apps"@, "[\n"@ + apps_text(s.apps, 0) + "  ]"@) + "\n}\n"@
}

/// `value` as a JSON string.
pub fn json_str(value: &str) -> (out: String)
    ensures
        out@ == quoted(value@),
{
    let mut out = String::new();
    push_quoted(&mut out, value);
    assert(out@ =~= quoted(value@));
    out
}

fn push_quoted(out: &mut String, value: &str)
    ensures
        final(out)@ == old(out)@ + quoted(value@),
{
    let v = chars_of(value);
    out.push('"');
    let ghost head = old(out)@ + seq!['"'];
    assert(v@.skip(0) =~= v@);
    let mut i: usize = 0;
    assert(out@ + escaped(v@.skip(0)) =~= head + escaped(v@));
    while i < v.len()
        invariant
            i <= v@.len(),
            out@ + escaped(v@.skip(i as int)) == head + escaped(v@),
        decreases v@.len() - i,
    {
        let ghost before = out@;
        let ghost rest = v@.skip(i as int);
        assert(rest.drop_first() =~= v@.skip(i + 1));
        let c = v[i];
        match c {
            '"' => {
                out.push('\\');
                out.push('"');
            },
            '\\' => {
                out.push('\\');
                out.push('\\');
            },
            '\n' => {
                out.push('\\');
                out.push('n');
            },
            '\r' => {
                out.push('\\');
                out.push('r');
            },
            '\t' => {
                out.push('\\');
                out.push('t');
            },
            _ => out.push(c),
        }
        assert(out@ =~= before + escape(c));
        assert(out@ + escaped(v@.skip(i + 1)) =~= before + (escape(c) + escaped(v@.skip(i + 1))));
        i = i + 1;
    }
    assert(v@.skip(i as int) =~= Seq::empty());
    assert(out@ + Seq::<char>::empty() =~= out@);
    out.push('"');
    assert(out@ =~= old(out)@ + quoted(value@));
}

fn push_str_field(out: &mut String, key: &str, value: &str)
    ensures
        final(out)@ == old(out)@ + field_text(key@, quoted(value@)),
{
    push_quoted(out, key);
    out.push(':');
    out.push(' ');
    push_quoted(out, value);
    assert(out@ =~= old(out)@ + field_text(key@, quoted(value@)));
}

fn push_num_field(out: &mut String, key: &str, value: usize)
    ensures
        final(out)@ == old(out)@ + field_text(key@, dec(value as nat)),
{
    push_quoted(out, key);
    out.push(':');
    out.push(' ');
    push_dec(out, value as u128);
    assert(out@ =~= old(out)@ + field_text(key@, dec(value as nat)));
}

fn push_app(out: &mut String, app: &SavedApp)
    ensures
        final(out)@ == old(out)@ + app_text(app@),
{
    out.push('{');
    push_str_field(out, "title", app.title.as_str());
    out.push(',');
    push_str_field(out, "path", app.path.as_str());
    out.push(',');
    push_num_field(out, "desktop", app.desktop);
    out.push(',');
    push_num_field(out, "x", app.x as usize);
    out.push(',');
    push_num_field(out, "y", app.y as usize);
    out.push(',');
    push_num_field(out, "w", app.w as usize);
    out.push(',');
    push_num_field(out, "h", app.h as usize);
    out.push('}');
    proof {
        reveal(app_text);
    }
    assert(out@ =~= old(out)@ + app_text(app@));
}

/// The text of a session.
pub fn render_session(session: &Session) -> (out: String)
    ensures
        out@ == session_text(session@),
{
    let mut out = String::new();
    out.append("{\n  ");
    push_num_field(&mut out, "current_desktop", session.current_desktop);
    out.append(",\n  ");
    push_quoted(&mut out, "apps");
    out.push(':');
    out.push(' ');
    out.append("[\n");
    let ghost head = out@;
    let ghost apps = session@.apps;
    let mut i: usize = 0;
    while i < session.apps.len()
        invariant
            i <= session.apps@.len(),
            apps == session@.apps,
            out@ + apps_text(apps, i as int) == head + apps_text(apps, 0),
        decreases session.apps@.len() - i,
    {
        let ghost before = out@;
        out.append("    ");
        push_app(&mut out, &session.apps[i]);
        if session.apps.len() - i > 1 {
            out.push(',');
        }
        out.push('\n');
        proof {
            let line = "    "@ + app_text(apps[i as int]) + (if i + 1 < apps.len() {
                seq![',', '\n']
            } else {
                seq!['\n']
            });
            assert(out@ =~= before + line);
            assert(out@ + apps_text(apps, i + 1) =~= before + (line + apps_text(apps, i + 1)));
        }
        i = i + 1;
    }
    assert(out@ + apps_text(apps, i as int) =~= out@);
    out.append("  ]");
    out.append("\n}\n");
    assert(out@ =~= session_text(session@));
    out
}

// ── Reading ──────────────────────────────────────────────────────────────────

/// `n` taken into the range of the desktops.
pub open spec fn clamp_desktop(n: nat) -> usize {
    if n < 1 {
        1
    } else if n > 4 {
        4
    } else {
        n as usize
    }
}

/// A desktop by number; the first where there is no number.
pub open spec fn desktop_of(v: Option<JsonModel>) -> usize {
    match v {
        Some(m) => match m.whole() {
            Some(n) => clamp_desktop(n),
            None => 1,
        },
        None => 1,
    }
}

/// A coordinate; `default` where there is no number.
pub open spec fn coordinate(v: Option<JsonModel>, default: u16) -> u16 {
    match v {
        Some(m) => match m.whole() {
            Some(n) => n as u16,
            None => default,
        },
        None => default,
    }
}

/// The window that a value describes: it has to have a title.
pub open spec fn app_of(m: JsonModel) -> Option<SavedAppModel> {
    match m.field("title"@) {
        Some(JsonModel::Str(title)) => Some(
            SavedAppModel {
                title,
                path: match m.field("path"@) {
                    Some(JsonModel::Str(path)) => path,
                    _ => Seq::empty(),
                },
                desktop: desktop_of(m.field("desktop"@)),
                x: coordinate(m.field("x"@), 0),
                y: coordinate(m.field("y"@), 0),
                w: coordinate(m.field("w"@), 1),
                h: coordinate(m.field("h"@), 1),
            },
        ),
        _ => None,
    }
}

/// The windows among the values; the others are left out.
pub open spec fn apps_of(items: Seq<JsonModel>) -> Seq<SavedAppModel>
    decreases items.len(),
{
    if items.len() == 0 {
        Seq::empty()
    } else {
        let front = apps_of(items.drop_last());
        match app_of(items.last()) {
            Some(a) => front.push(a),
            None => front,
        }
    }
}

pub open spec fn session_of(m: JsonModel) -> SessionModel {
    SessionModel {
        current_desktop: desktop_of(m.field("current_desktop"@)),
        apps: match m.field("apps"@) {
            Some(JsonModel::Arr(items)) => apps_of(items),
            _ => Seq::empty(),
        },
    }
}

fn read_desktop(v: Option<&Json>) -> (d: usize)
    ensures
        d == desktop_of(
            match v {
                Some(j) => Some(j.model()),
                None => None,
            },
        ),
{
    match v {
        Some(j) => match j.as_whole() {
            Some(n) => {
                if n < 1 {
                    1
                } else if n > 4 {
                    4
                } else {
                    n as usize
                }
            },
            None => 1,
        },
        None => 1,
    }
}

fn read_coordinate(v: Option<&Json>, default: u16) -> (c: u16)
    ensures
        c == coordinate(
            match v {
                Some(j) => Some(j.model()),
                None => None,
            },
            default,
        ),
{
    match v {
        Some(j) => match j.as_whole() {
            Some(n) => n as u16,
            None => default,
        },
        None => default,
    }
}

/// The window that a value describes.
pub fn saved_app_from_json(json: &Json) -> (r: Option<SavedApp>)
    ensures
        match r {
            Some(a) => app_of(json.model()) == Some(a@),
            None => app_of(json.model()) is None,
        },
{
    let title = match json.field("title") {
        Some(v) => match v.str_value() {
            Some(t) => t.to_owned(),
            None => {
                return None;
            },
        },
        None => {
            return None;
        },
    };
    let path = match json.field("path") {
        Some(v) => match v.str_value() {
            Some(t) => t.to_owned(),
            None => String::new(),
        },
        None => String::new(),
    };
    let app = SavedApp {
        title,
        path,
        desktop: read_desktop(json.field("desktop")),
        x: read_coordinate(json.field("x"), 0),
        y: read_coordinate(json.field("y"), 0),
        w: read_coordinate(json.field("w"), 1),
        h: read_coordinate(json.field("h"), 1),
    };
    assert(app_of(json.model())->0 =~= app@);
    Some(app)
}

/// The session that a saved text holds; `None` where it is no JSON.
pub fn parse_session(source: &str) -> (r: Option<Session>)
    ensures
        match r {
            Some(s) => document(source@) matches Ok(m) && s@ == session_of(m),
            None => document(source@) is Err,
        },
{
    let json = match crate::json::parse(source) {
        Ok(j) => j,
        Err(_) => {
            return None;
        },
    };
    let current_desktop: usize = read_desktop(json.field("current_desktop"));
    let mut apps: Vec<SavedApp> = Vec::new();
    match json.field("apps") {
        Some(v) => match v.as_arr() {
            Some(items) => {
                let ghost all = v.model()->Arr_0;
                let mut i: usize = 0;
                assert(all.take(0) =~= Seq::empty());
                assert(Seq::new(apps@.len(), |k: int| apps@[k]@) =~= apps_of(all.take(0)));
                while i < items.len()
                    invariant
                        i <= items@.len(),
                        all.len() == items@.len(),
                        forall|k: int|
                            0 <= k < items@.len() ==> #[trigger] items@[k].model() == all[k],
                        Seq::new(apps@.len(), |k: int| apps@[k]@) == apps_of(all.take(i as int)),
                    decreases items@.len() - i,
                {
                    let ghost before = Seq::new(apps@.len(), |k: int| apps@[k]@);
                    let ghost next = all.take(i + 1);
                    assert(next.drop_last() =~= all.take(i as int));
                    assert(next.last() == items@[i as int].model());
                    match saved_app_from_json(&items[i]) {
                        Some(a) => {
                            let ghost m = a@;
                            apps.push(a);
                            assert(Seq::new(apps@.len(), |k: int| apps@[k]@) =~= before.push(m));
                        },
                        None => {},
                    }
                    i = i + 1;
                }
                assert(all.take(i as int) =~= all);
            },
            None => {},
        },
        None => {},
    }
    let s = Session { current_desktop, apps };
    assert(s@.apps =~= session_of(json.model()).apps);
    Some(s)
}

/// The session of a saved text, where there is one and it is JSON.
pub open spec fn loaded(source: Option<Seq<char>>) -> Option<SessionModel> {
    match source {
        Some(t) => match document(t) {
            Ok(m) => Some(session_of(m)),
            Err(_) => None,
        },
        None => None,
    }
}

/// The saved session, out of the text that its file holds; `None` where there is no
/// such file, or it is no JSON.
pub fn load(source: Option<&str>) -> (r: Option<Session>)
    ensures
        loaded(
            match source {
                Some(t) => Some(t@),
                None => None,
            },
        ) == (match r {
            Some(s) => Some(s@),
            None => None,
        }),
{
    match source {
        Some(t) => parse_session(t),
        None => None,
    }
}

} // verus!

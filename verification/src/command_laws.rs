//! What becomes of lines: those that are typed, those that programs print, and those of
//! settings and of the menu.
use vstd::prelude::*;
use crate::cmd::{lemma_split_chunks, trim_breaks, CommandKind, CommandStatus, SplitModel};
use crate::config::{action_named, key_named, lemma_assign, ConfigModel};
use crate::json::{find_field, JsonModel};
use crate::launch::{extensions, holds, searched, Cut};
use crate::menu::{args_of, item_of, joined_path, tilde_expanded, with_args, MenuKind};
use crate::terminal_backend::StreamModel;
use crate::text::{first_word, lower_all, trim, trim_end};
use crate::wm::{cd_result, shell_ran};

verus! {

// ── Command lines ────────────────────────────────────────────────────────────

/// A line that is run becomes a command of the directory that it was run in. `cd` changes
/// the directory where it leads to one, and to none else; no other command does. A process
/// that was started runs, and one that could not be says why.
pub proof fn lemma_line_run(
    path: Seq<char>,
    raw: Seq<char>,
    resolved: Result<String, String>,
    runner: usize,
    failure: Option<String>,
)
    ensures
        ({
            let (e, to) = shell_ran(path, raw, resolved, runner, failure);
            let line = trim(raw);
            let word = first_word(line);
            &&& line.len() == 0 ==> e is None && to == path
            &&& line.len() > 0 ==> e is Some && (e->0).command == line && (e->0).cwd == path
            &&& line.len() > 0 && word != "cd"@ ==> to == path
            &&& word == "cd"@ && line.len() > 3 && line[2] == ' ' && line.take(2) == "cd"@ ==> to
                == (match resolved {
                Ok(p) => p@,
                Err(_) => path,
            })
            &&& word == "pwd"@ && line.len() > 0 && trim(line) == line ==> (e->0).output_lines
                == seq![path] && (e->0).status == CommandStatus::Complete
            &&& line.len() > 0 && word != "cd"@ && word != "pwd"@ && word != "clear"@ && word
                != "help"@ && word != "exit"@ ==> match failure {
                None => (e->0).status == CommandStatus::Running && (e->0).runner == Some(runner)
                    && (e->0).output_lines.len() == 0 && (e->0).kind == CommandKind::External,
                Some(why) => (e->0).status == CommandStatus::Complete && (e->0).runner is None
                    && (e->0).output_lines == seq![why@],
            }
        }),
{
    reveal_strlit("cd");
    reveal_strlit("pwd");
    assert("cd"@.len() == 2 && "pwd"@.len() == 3);
}

/// `cd` without a name stays; with one it goes to the directory that was found, and else
/// says why not, with the name.
pub proof fn lemma_directory_changed(
    current: Seq<char>,
    target: Seq<char>,
    found: Result<(String, bool), String>,
)
    ensures
        trim(target).len() == 0 ==> cd_result(current, target, found, false)
            == Ok::<Seq<char>, Seq<char>>(current),
        trim(target).len() > 0 ==> match found {
            Ok((p, true)) => cd_result(current, target, found, false) == Ok::<
                Seq<char>,
                Seq<char>,
            >(p@),
            Ok((_, false)) => cd_result(current, target, found, false) is Err,
            Err(_) => cd_result(current, target, found, false) is Err,
        },
{
}

// ── Lines of output ──────────────────────────────────────────────────────────

proof fn lemma_no_break(m: SplitModel, t: Seq<char>)
    requires
        forall|i: int| 0 <= i < t.len() ==> #[trigger] t[i] != '\n',
    ensures
        m.run(t) == (SplitModel { rest: m.rest + t, ..m }),
    decreases t.len(),
{
    if t.len() == 0 {
        assert(m.rest + t =~= m.rest);
    } else {
        let f = t.drop_last();
        assert forall|i: int| 0 <= i < f.len() implies #[trigger] f[i] != '\n' by {
            assert(f[i] == t[i]);
        }
        lemma_no_break(m, f);
        assert(t[t.len() - 1] != '\n');
        assert((m.rest + f).push(t.last()) =~= m.rest + t);
    }
}

/// Text up to a line break is a line, without the breaks at its end; what comes behind it
/// begins the next.
pub proof fn lemma_line_ends(m: SplitModel, a: Seq<char>, b: Seq<char>)
    requires
        forall|i: int| 0 <= i < a.len() ==> #[trigger] a[i] != '\n',
        forall|i: int| 0 <= i < b.len() ==> #[trigger] b[i] != '\n',
        trim_breaks(m.rest + a).len() > 0,
    ensures
        m.run(a + seq!['\n'] + b) == (SplitModel {
            lines: m.lines.push(trim_breaks(m.rest + a)),
            rest: b,
        }),
{
    lemma_split_chunks(m, a + seq!['\n'], b);
    lemma_split_chunks(m, a, seq!['\n']);
    lemma_no_break(m, a);
    let s = m.run(a);
    assert(seq!['\n'].drop_last() =~= Seq::empty());
    reveal_with_fuel(SplitModel::run, 2);
    let n = s.run(seq!['\n']);
    lemma_no_break(n, b);
    assert(n.rest + b =~= b);
}

/// Text without a line break waits for one for a twentieth of a second; then it is given as
/// a line of its own.
pub proof fn lemma_text_waits(s: StreamModel, text: Seq<char>, now: u64)
    requires
        !text.contains('\n'),
        s.last <= now,
        trim_end(s.rest + text).len() > 0,
        s.rest.len() + text.len() > 0,
    ensures
        now < s.last + 50 ==> s.fed(text, now) == (
            StreamModel { rest: s.rest + text, last: s.last },
            Seq::<Seq<char>>::empty(),
        ),
        now >= s.last + 50 ==> s.fed(text, now) == (
            StreamModel { rest: Seq::empty(), last: now },
            seq![trim_end(s.rest + text)],
        ),
{
    assert forall|i: int| 0 <= i < text.len() implies #[trigger] text[i] != '\n' by {
        if text[i] == '\n' {
            assert(text.contains('\n'));
        }
    }
    lemma_no_break(SplitModel { lines: Seq::empty(), rest: s.rest }, text);
    assert(Seq::<Seq<char>>::empty().push(trim_end(s.rest + text)) =~= seq![
        trim_end(s.rest + text),
    ]);
}

// ── Lists and paths ──────────────────────────────────────────────────────────

proof fn lemma_cut_join(c: Cut, a: Seq<char>, b: Seq<char>)
    ensures
        c.run(a + b) == c.run(a).run(b),
    decreases b.len(),
{
    if b.len() == 0 {
        assert(a + b =~= a);
    } else {
        assert((a + b).drop_last() =~= a + b.drop_last());
        lemma_cut_join(c, a, b.drop_last());
    }
}

proof fn lemma_cut_part(c: Cut, t: Seq<char>)
    requires
        forall|i: int| 0 <= i < t.len() ==> #[trigger] t[i] != ';',
    ensures
        c.run(t) == (Cut { rest: c.rest + t, ..c }),
    decreases t.len(),
{
    if t.len() == 0 {
        assert(c.rest + t =~= c.rest);
    } else {
        let f = t.drop_last();
        assert forall|i: int| 0 <= i < f.len() implies #[trigger] f[i] != ';' by {
            assert(f[i] == t[i]);
        }
        lemma_cut_part(c, f);
        assert(t[t.len() - 1] != ';');
        assert((c.rest + f).push(t.last()) =~= c.rest + t);
    }
}

/// Two extensions with a semicolon between them are two, and one alone is one.
pub proof fn lemma_extensions_parted(a: Seq<char>, b: Seq<char>)
    requires
        a.len() > 0,
        b.len() > 0,
        forall|i: int| 0 <= i < a.len() ==> #[trigger] a[i] != ';',
        forall|i: int| 0 <= i < b.len() ==> #[trigger] b[i] != ';',
    ensures
        extensions(a) == seq![a],
        extensions(a + seq![';'] + b) == seq![a, b],
{
    let c = Cut { done: Seq::empty(), rest: Seq::empty() };
    lemma_cut_part(c, a);
    assert(c.rest + a =~= a);
    assert(Seq::<Seq<char>>::empty().push(a) =~= seq![a]);
    lemma_cut_join(c, a + seq![';'], b);
    lemma_cut_join(c, a, seq![';']);
    let d = c.run(a);
    assert(seq![';'].drop_last() =~= Seq::empty());
    reveal_with_fuel(Cut::run, 2);
    let e = d.run(seq![';']);
    lemma_cut_part(e, b);
    assert(e.rest + b =~= b);
    assert(seq![a].push(b) =~= seq![a, b]);
}

/// The arguments of an entry stand behind its command, with a blank before each.
pub proof fn lemma_arguments_joined(line: Seq<char>, args: Seq<Seq<char>>, one: Seq<char>)
    requires
        line.len() > 0,
    ensures
        with_args(line, Seq::empty()) == line,
        with_args(line, args.push(one)) == with_args(line, args) + seq![' '] + one,
{
    assert(args.push(one).drop_last() =~= args);
    lemma_args_not_empty(line, args);
    assert(with_args(line, args).push(' ') + one =~= with_args(line, args) + seq![' '] + one);
}

proof fn lemma_args_not_empty(line: Seq<char>, args: Seq<Seq<char>>)
    requires
        line.len() > 0,
    ensures
        with_args(line, args).len() > 0,
    decreases args.len(),
{
    if args.len() > 0 {
        lemma_args_not_empty(line, args.drop_last());
    }
}

/// `~` stands for the home directory, alone or before a path; a path from the root stays.
pub proof fn lemma_home_put_in(home: Seq<char>, rest: Seq<char>)
    requires
        home.len() > 0,
        home.last() != '/',
        rest.len() > 0,
        rest[0] != '/',
    ensures
        tilde_expanded(seq!['~'], Some(home)) == home,
        tilde_expanded(seq!['~', '/'] + rest, Some(home)) == home + seq!['/'] + rest,
        joined_path(home, seq!['/'] + rest) == seq!['/'] + rest,
        joined_path(home, rest) == home + seq!['/'] + rest,
{
    reveal_strlit("~");
    reveal_strlit("~/");
    assert("~"@ =~= seq!['~']);
    assert("~/"@ =~= seq!['~', '/']);
    let p = seq!['~', '/'] + rest;
    assert(p != "~"@) by {
        assert(p.len() > 1);
    }
    assert("~/"@.is_prefix_of(p)) by {
        assert(p.subrange(0, 2) =~= "~/"@);
    }
    assert(p.skip(2) =~= rest);
    assert(home.push('/') + rest =~= home + seq!['/'] + rest);
}

// ── Settings ─────────────────────────────────────────────────────────────────

/// Settings take the theme of a document, to the third at most, and leave the shortcuts
/// where it has none.
pub proof fn lemma_theme_set(c: ConfigModel, m: JsonModel, v: JsonModel, n: nat)
    requires
        m.field("theme"@) == Some(v),
        v.whole() == Some(n),
        m.field("shortcuts"@) is None,
    ensures
        c.with_document(m).theme == (if n < 2 {
            n as int
        } else {
            2
        }),
        c.with_document(m).shortcuts == c.shortcuts,
{
}

/// The last of the shortcuts of a document that names an action and a key binds that key to
/// that action.
pub proof fn lemma_shortcut_set(
    c: ConfigModel,
    f: Seq<(Seq<char>, JsonModel)>,
    name: Seq<char>,
    text: Seq<char>,
)
    requires
        action_named(lower_all(trim(name))) is Some,
        key_named(text) is Some,
    ensures
        ({
            let m = f.push((name, JsonModel::Str(text)));
            c.with_fields(m).resolved(key_named(text)->0) == action_named(lower_all(trim(name)))
        }),
{
    let m = f.push((name, JsonModel::Str(text)));
    assert(m.drop_last() =~= f);
    let key = key_named(text)->0;
    let other = if key == crate::os::Key::Up {
        crate::os::Key::Down
    } else {
        crate::os::Key::Up
    };
    lemma_assign(c.with_fields(f), action_named(lower_all(trim(name)))->0, key, other);
}

// ── Directories and entries of the menu ──────────────────────────────────────

/// The directories that are searched are all but those of `WindowsApps`, in their order.
pub proof fn lemma_dirs_searched(dirs: Seq<Seq<char>>)
    requires
        dirs.len() <= usize::MAX,
    ensures
        forall|k: int|
            0 <= k < searched(dirs).len() ==> 0 <= (#[trigger] searched(dirs)[k]) < dirs.len()
                && !holds(dirs[searched(dirs)[k] as int], "WindowsApps"@),
        forall|j: int, k: int|
            0 <= j < k < searched(dirs).len() ==> #[trigger] searched(dirs)[j]
                < #[trigger] searched(dirs)[k],
        forall|i: usize|
            i < dirs.len() && !holds(dirs[i as int], "WindowsApps"@) ==> #[trigger] searched(
                dirs,
            ).contains(i),
    decreases dirs.len(),
{
    if dirs.len() > 0 {
        let d = dirs.drop_last();
        let n = (dirs.len() - 1) as usize;
        lemma_dirs_searched(d);
        assert forall|i: usize|
            i < dirs.len() && !holds(dirs[i as int], "WindowsApps"@) implies #[trigger] searched(
            dirs,
        ).contains(i) by {
            if i == n {
                assert(searched(dirs).last() == n);
            } else {
                assert(searched(d).contains(i));
                let k = choose|k: int| 0 <= k < searched(d).len() && searched(d)[k] == i;
                assert(searched(dirs)[k] == i);
            }
        }
        assert forall|k: int| 0 <= k < searched(dirs).len() implies 0 <= (#[trigger] searched(
            dirs,
        )[k]) < dirs.len() && !holds(dirs[searched(dirs)[k] as int], "WindowsApps"@) by {
            if k < searched(d).len() {
                assert(searched(dirs)[k] == searched(d)[k]);
            }
        }
        assert forall|j: int, k: int| 0 <= j < k < searched(dirs).len() implies #[trigger] searched(
            dirs,
        )[j] < #[trigger] searched(dirs)[k] by {
            assert(searched(dirs)[j] == searched(d)[j]);
            if k < searched(d).len() {
                assert(searched(dirs)[k] == searched(d)[k]);
            }
        }
    }
}

/// An entry of the menu has the label that it is given, else its command, else `Start`. A
/// desktop that it names is one of the four, and the nearest of them.
pub proof fn lemma_entry_read(f: Seq<(Seq<char>, JsonModel)>, label: Seq<char>, command: Seq<char>)
    requires
        find_field(f, "args"@) is None,
        find_field(f, "command"@) == Some(JsonModel::Str(command)),
        find_field(f, "label"@) == Some(JsonModel::Str(label)),
    ensures
        ({
            let e = item_of(JsonModel::Obj(f));
            let m = e->Ok_0;
            &&& e is Ok
            &&& m.command == command
            &&& m.args.len() == 0
            &&& trim(label).len() > 0 ==> m.label == label
            &&& trim(label).len() == 0 && trim(command).len() > 0 ==> m.label == trim(command)
            &&& trim(label).len() == 0 && trim(command).len() == 0 ==> m.label == "Start"@
            &&& find_field(f, "cwd"@) matches Some(JsonModel::Str(t)) ==> m.cwd == Some(t)
            &&& find_field(f, "cwd"@) is None ==> m.cwd is None
            &&& find_field(f, "desktop"@) is None ==> m.desktop is None
            &&& m.desktop matches Some(n) ==> 1 <= n <= 4
            &&& find_field(f, "desktop"@) is Some && (find_field(f, "desktop"@)->0).whole() is Some
                ==> ({
                let n = (find_field(f, "desktop"@)->0).whole()->0;
                &&& m.desktop is Some
                &&& 1 <= n <= 4 ==> m.desktop->0 == n
                &&& n < 1 ==> m.desktop->0 == 1
                &&& n > 4 ==> m.desktop->0 == 4
            })
            &&& find_field(f, "kind"@) is None ==> m.kind == MenuKind::App
            &&& find_field(f, "kind"@) matches Some(JsonModel::Str(t)) ==> ({
                let k = lower_all(trim(t));
                &&& m.kind == MenuKind::Terminal <==> k == "terminal"@ || k == "shell"@
                &&& m.kind == MenuKind::Command <==> k == "command"@ || k == "cmd"@ || k == "run"@
            })
        }),
{
    reveal_strlit("app");
    reveal_strlit("terminal");
    reveal_strlit("shell");
    reveal_strlit("command");
    reveal_strlit("cmd");
    reveal_strlit("run");
    assert("app"@[0] == 'a' && "cmd"@[0] == 'c' && "run"@[0] == 'r');
    assert("terminal"@.len() == 8 && "shell"@.len() == 5 && "command"@.len() == 7);
    assert("app"@.len() == 3 && "cmd"@.len() == 3 && "run"@.len() == 3);
}

/// The arguments of an entry are read in their order.
pub proof fn lemma_arguments_read(items: Seq<JsonModel>, args: Seq<Seq<char>>)
    requires
        items.len() == args.len(),
        forall|k: int| 0 <= k < items.len() ==> #[trigger] items[k] == JsonModel::Str(args[k]),
    ensures
        args_of(Some(JsonModel::Arr(items))) == Ok::<Seq<Seq<char>>, Seq<char>>(args),
    decreases items.len(),
{
    if items.len() > 0 {
        assert(items.last() == JsonModel::Str(args.last()));
        assert(items.drop_last() =~= items.take(items.len() - 1));
        lemma_arguments_read(items.drop_last(), args.drop_last());
        assert(args.drop_last().push(args.last()) =~= args);
    } else {
        assert(args =~= Seq::empty());
    }
}

} // verus!

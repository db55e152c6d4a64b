//! What is started for shells, programs and commands, and how it ended.
use vstd::prelude::*;
use vstd::string::*;
use crate::cmd::trim_breaks;
use crate::text::{
    chars_of, is_empty, push_line, push_text, string_of, texts, to_text, trim, trim_string,
};

verus! {

/// The shell of a Unix host where the environment names none.
pub open spec fn unix_shell() -> Seq<char> {
    "/bin/sh"@
}

/// The shell that the environment names, or the one that is always there.
pub fn default_shell(named: Option<String>) -> (s: String)
    ensures
        s@ == (match named {
            Some(n) => n@,
            None => unix_shell(),
        }),
{
    match named {
        Some(n) => n,
        None => "/bin/sh".to_owned(),
    }
}

/// The shell of a Windows host: the first of those found, then the one that the
/// environment names.
pub fn default_console_shell(found: Option<String>, named: Option<String>) -> (s: String)
    ensures
        s@ == (match (found, named) {
            (Some(f), _) => f@,
            (None, Some(n)) => n@,
            (None, None) => "cmd.exe"@,
        }),
{
    match found {
        Some(f) => f,
        None => match named {
            Some(n) => n,
            None => "cmd.exe".to_owned(),
        },
    }
}

/// The words that start an interactive shell.
pub open spec fn shell_words(shell: Seq<char>) -> Seq<Seq<char>> {
    seq![shell, "-i"@]
}

/// The words that run a command line in a login shell.
pub open spec fn line_words(line: Seq<char>) -> Seq<Seq<char>> {
    seq!["/bin/sh"@, "-lc"@, line]
}

/// The words that start an interactive shell.
pub fn shell_argv(shell: &str) -> (v: Vec<String>)
    ensures
        texts(v@) == shell_words(shell@),
{
    let mut v: Vec<String> = Vec::new();
    push_line(&mut v, shell);
    push_line(&mut v, "-i");
    assert(texts(v@) =~= shell_words(shell@));
    v
}

/// The words that run a command once.
pub fn command_argv(line: &str) -> (v: Vec<String>)
    ensures
        texts(v@) == line_words(line@),
{
    let mut v: Vec<String> = Vec::new();
    push_line(&mut v, "/bin/sh");
    push_line(&mut v, "-lc");
    push_line(&mut v, line);
    assert(texts(v@) =~= line_words(line@));
    v
}

/// The words that start a program, which is parsed as a typed line; the default
/// shell where there is none.
pub fn app_argv(program: &str, shell: &str) -> (v: Vec<String>)
    ensures
        texts(v@) == (if trim(program@).len() == 0 {
            shell_words(shell@)
        } else {
            line_words(program@)
        }),
{
    if is_empty(trim_string(program).as_str()) {
        shell_argv(shell)
    } else {
        command_argv(program)
    }
}

/// The words that start a program with its arguments.
pub fn program_argv(program: &str, args: &[String]) -> (v: Vec<String>)
    ensures
        texts(v@) == seq![program@] + texts(args@),
{
    let mut v: Vec<String> = Vec::new();
    push_line(&mut v, program);
    let mut i: usize = 0;
    assert(texts(v@) =~= seq![program@] + texts(args@).take(0));
    while i < args.len()
        invariant
            i <= args@.len(),
            texts(v@) == seq![program@] + texts(args@).take(i as int),
        decreases args@.len() - i,
    {
        push_text(&mut v, args[i].clone());
        assert(texts(v@) =~= seq![program@] + texts(args@).take(i + 1));
        i = i + 1;
    }
    assert(texts(args@).take(i as int) =~= texts(args@));
    v
}

/// How a program ended: its own code, or 128 and the signal that ended it.
pub fn exit_code(exited: Option<u8>, signal: Option<u8>) -> (c: i32)
    ensures
        c == (match (exited, signal) {
            (Some(e), _) => e as int,
            (None, Some(s)) => 128 + s,
            (None, None) => 0,
        }),
{
    match exited {
        Some(e) => e as i32,
        None => match signal {
            Some(s) => 128 + s as i32,
            None => 0,
        },
    }
}

/// The text that a clipboard tool printed, without the line breaks at its end.
pub fn clipboard_text(printed: &str) -> (s: String)
    ensures
        s@ == trim_breaks(printed@),
{
    let v = chars_of(printed);
    let mut n: usize = v.len();
    assert(v@.take(n as int) =~= v@);
    while n > 0 && (v[n - 1] == '\n' || v[n - 1] == '\r')
        invariant
            n <= v@.len(),
            v@ == printed@,
            trim_breaks(v@.take(n as int)) == trim_breaks(v@),
        decreases n,
    {
        assert(v@.take(n as int).drop_last() =~= v@.take(n - 1));
        n = n - 1;
    }
    let s = string_of(&v, 0, n);
    assert(s@ =~= v@.take(n as int));
    s
}

// ── Searching for a program ──────────────────────────────────────────────────

/// The extensions read so far, and the one being read.
#[verifier::ext_equal]
pub struct Cut {
    pub done: Seq<Seq<char>>,
    pub rest: Seq<char>,
}

impl Cut {
    pub open spec fn closed(self) -> Seq<Seq<char>> {
        if self.rest.len() > 0 {
            self.done.push(self.rest)
        } else {
            self.done
        }
    }

    pub open spec fn run(self, s: Seq<char>) -> Cut
        decreases s.len(),
    {
        if s.len() == 0 {
            self
        } else {
            let front = self.run(s.drop_last());
            if s.last() == ';' {
                Cut { done: front.closed(), rest: Seq::empty() }
            } else {
                Cut { rest: front.rest.push(s.last()), ..front }
            }
        }
    }
}

/// The extensions in a list with semicolons between them.
pub open spec fn extensions(list: Seq<char>) -> Seq<Seq<char>> {
    Cut { done: Seq::empty(), rest: Seq::empty() }.run(list).closed()
}

/// The extensions in a list with semicolons between them.
pub fn split_extensions(list: &str) -> (v: Vec<String>)
    ensures
        texts(v@) == extensions(list@),
{
    let c = chars_of(list);
    let mut v: Vec<String> = Vec::new();
    let mut rest: Vec<char> = Vec::new();
    let ghost start = Cut { done: Seq::empty(), rest: Seq::empty() };
    let mut i: usize = 0;
    assert(texts(v@) =~= Seq::empty());
    assert(rest@ =~= Seq::empty());
    assert(c@.take(0) =~= Seq::empty());
    while i < c.len()
        invariant
            i <= c@.len(),
            c@ == list@,
            start == (Cut { done: Seq::empty(), rest: Seq::empty() }),
            (Cut { done: texts(v@), rest: rest@ }) == start.run(c@.take(i as int)),
        decreases c@.len() - i,
    {
        assert(c@.take(i + 1).drop_last() =~= c@.take(i as int));
        if c[i] == ';' {
            if rest.len() > 0 {
                push_text(&mut v, to_text(&rest));
            }
            rest = Vec::new();
            assert(rest@ =~= Seq::empty());
        } else {
            rest.push(c[i]);
        }
        i = i + 1;
    }
    assert(c@.take(i as int) =~= c@);
    if rest.len() > 0 {
        push_text(&mut v, to_text(&rest));
    }
    v
}

/// Whether `s` holds `t`.
pub open spec fn holds(s: Seq<char>, t: Seq<char>) -> bool {
    exists|k: int| 0 <= k <= s.len() - t.len() && #[trigger] s.subrange(k, k + t.len()) == t
}

fn does_hold(s: &str, t: &str) -> (r: bool)
    ensures
        r == holds(s@, t@),
{
    let v = chars_of(s);
    let w = chars_of(t);
    if w.len() > v.len() {
        return false;
    }
    let total: usize = v.len();
    let last: usize = total - w.len();
    let mut k: usize = 0;
    while k <= last
        invariant
            k <= last + 1,
            total == v@.len(),
            last == v@.len() - w@.len(),
            v@ == s@,
            w@ == t@,
            forall|j: int| 0 <= j < k ==> #[trigger] v@.subrange(j, j + w@.len()) != w@,
        decreases last + 1 - k,
    {
        let part = crate::text::slice_chars(&v, k, k + w.len());
        if crate::text::same_chars(&part, &w) {
            assert(v@.subrange(k as int, k + w@.len()) == w@);
            return true;
        }
        if k == last {
            return false;
        }
        k = k + 1;
    }
    false
}

/// The file names that stand for a program: its own, and with each extension.
pub open spec fn file_names(program: Seq<char>, exts: Seq<Seq<char>>) -> Seq<Seq<char>> {
    seq![program] + Seq::new(exts.len(), |i: int| program + exts[i])
}

/// The file names that stand for a program.
pub fn names_of(program: &str, exts: &[String]) -> (v: Vec<String>)
    ensures
        texts(v@) == file_names(program@, texts(exts@)),
{
    let mut v: Vec<String> = Vec::new();
    push_line(&mut v, program);
    assert(v@.len() == texts(v@).len());
    assert(texts(v@) =~= file_names(program@, texts(exts@)).take(1));
    while v.len() <= exts.len()
        invariant
            1 <= v@.len() <= exts@.len() + 1,
            texts(v@) == file_names(program@, texts(exts@)).take(v@.len() as int),
        decreases exts@.len() + 1 - v@.len(),
    {
        let ghost n = v@.len() as int;
        let mut name = program.to_owned();
        name.append(exts[v.len() - 1].as_str());
        push_text(&mut v, name);
        assert(v@.len() == texts(v@).len());
        assert(texts(v@) =~= file_names(program@, texts(exts@)).take(n + 1));
    }
    assert(texts(v@) =~= file_names(program@, texts(exts@)));
    v
}

/// The directories that a search goes through, by their place in the list: those of
/// aliases hold nothing that can be started.
pub open spec fn searched(dirs: Seq<Seq<char>>) -> Seq<usize>
    decreases dirs.len(),
{
    if dirs.len() == 0 {
        Seq::empty()
    } else {
        let front = searched(dirs.drop_last());
        if holds(dirs.last(), "WindowsApps"@) {
            front
        } else {
            front.push((dirs.len() - 1) as usize)
        }
    }
}

/// The directories that a search for a program goes through, by their place.
pub fn searched_dirs(dirs: &[String]) -> (v: Vec<usize>)
    ensures
        v@ == searched(texts(dirs@)),
        forall|k: int| 0 <= k < v@.len() ==> #[trigger] v@[k] < dirs@.len(),
{
    let ghost all = texts(dirs@);
    let mut v: Vec<usize> = Vec::new();
    let mut i: usize = 0;
    assert(all.take(0) =~= Seq::empty());
    while i < dirs.len()
        invariant
            i <= dirs@.len(),
            all == texts(dirs@),
            v@ == searched(all.take(i as int)),
            forall|k: int| 0 <= k < v@.len() ==> #[trigger] v@[k] < i,
        decreases dirs@.len() - i,
    {
        assert(all.take(i + 1).drop_last() =~= all.take(i as int));
        assert(all.take(i + 1).last() == dirs@[i as int]@);
        if !does_hold(dirs[i].as_str(), "WindowsApps") {
            v.push(i);
        }
        i = i + 1;
    }
    assert(all.take(i as int) =~= all);
    v
}

/// What a search finds: the first file there is, in the order of the directories
/// and of the names. `exists[d][n]` says whether directory `d` holds name `n`.
pub open spec fn found(exists: Seq<Seq<bool>>, n: int) -> Option<(usize, usize)>
    decreases n,
{
    if n <= 0 {
        None
    } else {
        match found(exists, n - 1) {
            Some(r) => Some(r),
            None => match first_true(exists[n - 1], exists[n - 1].len() as int) {
                Some(k) => Some(((n - 1) as usize, k)),
                None => None,
            },
        }
    }
}

/// The first of `n` flags that is set.
pub open spec fn first_true(v: Seq<bool>, n: int) -> Option<usize>
    decreases n,
{
    if n <= 0 {
        None
    } else {
        match first_true(v, n - 1) {
            Some(k) => Some(k),
            None => if v[n - 1] {
                Some((n - 1) as usize)
            } else {
                None
            },
        }
    }
}

/// What a search finds: the first file there is.
pub fn find_on_path(exists: &[Vec<bool>]) -> (r: Option<(usize, usize)>)
    ensures
        r == found(exists@.map_values(|v: Vec<bool>| v@), exists@.len() as int),
{
    let ghost all = exists@.map_values(|v: Vec<bool>| v@);
    let mut d: usize = 0;
    while d < exists.len()
        invariant
            d <= exists@.len(),
            all == exists@.map_values(|v: Vec<bool>| v@),
            found(all, d as int) is None,
        decreases exists@.len() - d,
    {
        let row = &exists[d];
        let mut k: usize = 0;
        while k < row.len()
            invariant
                k <= row@.len(),
                first_true(row@, k as int) is None,
                d < exists@.len(),
                all == exists@.map_values(|v: Vec<bool>| v@),
                row@ == all[d as int],
                found(all, d as int) is None,
            decreases row@.len() - k,
        {
            if row[k] {
                proof {
                    lemma_first_true(row@, k as int + 1, row@.len() as int);
                    lemma_found(all, d as int + 1, all.len() as int);
                }
                return Some((d, k));
            }
            k = k + 1;
        }
        d = d + 1;
    }
    None
}

proof fn lemma_first_true(v: Seq<bool>, n: int, m: int)
    requires
        0 <= n <= m <= v.len(),
        first_true(v, n) is Some,
    ensures
        first_true(v, m) == first_true(v, n),
    decreases m - n,
{
    if n < m {
        lemma_first_true(v, n, m - 1);
    }
}

proof fn lemma_found(e: Seq<Seq<bool>>, n: int, m: int)
    requires
        0 <= n <= m <= e.len(),
        found(e, n) is Some,
    ensures
        found(e, m) == found(e, n),
    decreases m - n,
{
    if n < m {
        lemma_found(e, n, m - 1);
    }
}

} // verus!

//! How suggestions are chosen, in which order they come, and what a word is completed to.
use vstd::prelude::*;
use crate::input::{
    before, common_all, completion, inserted, leaf_start, lemma_common_all, new_matches,
    path_inserted, path_matches, same_name_in, sorted,
};
use crate::text::lower_all;

verus! {

// ── The order of texts ───────────────────────────────────────────────────────

/// No text stands before itself.
proof fn lemma_not_before_itself(a: Seq<char>)
    ensures
        !before(a, a),
    decreases a.len(),
{
    if a.len() > 0 {
        lemma_not_before_itself(a.drop_first());
    }
}

/// Different characters have different numbers.
proof fn lemma_numbers_differ(c: char, d: char)
    requires
        c != d,
    ensures
        c as u32 != d as u32,
{
}

/// Of two different texts one stands before the other.
proof fn lemma_before_total(a: Seq<char>, b: Seq<char>)
    ensures
        before(a, b) || before(b, a) || a == b,
        !(before(a, b) && before(b, a)),
    decreases a.len(),
{
    if a.len() == 0 {
        if b.len() == 0 {
            assert(a =~= b);
        }
    } else if b.len() > 0 && a[0] == b[0] {
        lemma_before_total(a.drop_first(), b.drop_first());
        if a.drop_first() == b.drop_first() {
            assert(a =~= seq![a[0]] + a.drop_first());
            assert(b =~= seq![b[0]] + b.drop_first());
        }
        assert(before(a, b) == before(a.drop_first(), b.drop_first()));
        assert(before(b, a) == before(b.drop_first(), a.drop_first()));
    } else if b.len() > 0 {
        assert(before(a, b) == ((a[0] as u32) < (b[0] as u32)));
        assert(before(b, a) == ((b[0] as u32) < (a[0] as u32)));
        lemma_numbers_differ(a[0], b[0]);
    } else {
        assert(before(b, a));
    }
}

proof fn lemma_before_transitive(a: Seq<char>, b: Seq<char>, c: Seq<char>)
    requires
        before(a, b),
        before(b, c),
    ensures
        before(a, c),
    decreases a.len(),
{
    if a.len() > 0 && a[0] == b[0] && b[0] == c[0] {
        lemma_before_transitive(a.drop_first(), b.drop_first(), c.drop_first());
    }
}

/// A text with more behind it stands behind it.
pub proof fn lemma_prefix_before(a: Seq<char>, b: Seq<char>)
    requires
        b.len() > 0,
    ensures
        before(a, a + b),
    decreases a.len(),
{
    if a.len() > 0 {
        lemma_prefix_before(a.drop_first(), b);
        assert((a + b).drop_first() =~= a.drop_first() + b);
    }
}

/// Texts that are the same up to a character stand in the order of that character.
pub proof fn lemma_ordered_by_character(a: Seq<char>, x: char, y: char, b: Seq<char>, c: Seq<char>)
    requires
        (x as u32) < (y as u32),
    ensures
        before(a.push(x) + b, a.push(y) + c),
    decreases a.len(),
{
    if a.len() > 0 {
        let (s, t) = (a.push(x) + b, a.push(y) + c);
        lemma_ordered_by_character(a.drop_first(), x, y, b, c);
        assert(s.drop_first() =~= a.drop_first().push(x) + b);
        assert(t.drop_first() =~= a.drop_first().push(y) + c);
    }
}

/// Whether no text of a list stands before one in front of it.
pub open spec fn in_order(v: Seq<Seq<char>>) -> bool {
    forall|i: int, j: int| 0 <= i < j < v.len() ==> !before(#[trigger] v[j], #[trigger] v[i])
}

proof fn lemma_inserted(v: Seq<Seq<char>>, t: Seq<char>)
    requires
        in_order(v),
    ensures
        in_order(inserted(v, t)),
        inserted(v, t).len() == v.len() + 1,
        inserted(v, t).to_multiset() == v.to_multiset().insert(t),
        forall|x: Seq<char>| #[trigger] inserted(v, t).contains(x) ==> v.contains(x) || x == t,
    decreases v.len(),
{
    broadcast use vstd::seq_lib::group_to_multiset_ensures;

    let r = inserted(v, t);
    if v.len() > 0 && before(t, v.last()) {
        let f = v.drop_last();
        assert(in_order(f)) by {
            assert forall|i: int, j: int| 0 <= i < j < f.len() implies !before(
                #[trigger] f[j],
                #[trigger] f[i],
            ) by {
                assert(!before(v[j], v[i]));
            }
        }
        lemma_inserted(f, t);
        let g = inserted(f, t);
        assert forall|i: int, j: int| 0 <= i < j < r.len() implies !before(
            #[trigger] r[j],
            #[trigger] r[i],
        ) by {
            if j < g.len() {
                assert(r[j] == g[j] && r[i] == g[i]);
            } else {
                assert(r[j] == v.last() && r[i] == g[i]);
                assert(g.contains(g[i]));
                if g[i] == t {
                    lemma_before_total(t, v.last());
                } else {
                    let k = choose|k: int| 0 <= k < f.len() && f[k] == g[i];
                    assert(!before(v[v.len() - 1], v[k]));
                }
            }
        }
        assert(f.push(v.last()) =~= v);
        assert(r.to_multiset() =~= v.to_multiset().insert(t));
        assert forall|x: Seq<char>| #[trigger] r.contains(x) implies v.contains(x) || x == t by {
            let k = choose|k: int| 0 <= k < r.len() && r[k] == x;
            if k < g.len() {
                assert(g.contains(g[k]));
                if g[k] != t {
                    let q = choose|q: int| 0 <= q < f.len() && f[q] == g[k];
                    assert(v[q] == x);
                }
            } else {
                assert(v[v.len() - 1] == x);
            }
        }
    } else {
        assert forall|i: int, j: int| 0 <= i < j < r.len() implies !before(
            #[trigger] r[j],
            #[trigger] r[i],
        ) by {
            if j < v.len() {
                assert(r[j] == v[j] && r[i] == v[i]);
            } else if i < v.len() - 1 {
                assert(r[i] == v[i] && r[j] == t);
                assert(!before(v[v.len() - 1], v[i]));
                if before(t, v[i]) {
                    lemma_before_total(v[i], v.last());
                    if before(v[i], v.last()) {
                        lemma_before_transitive(t, v[i], v.last());
                    }
                }
            }
        }
        assert forall|x: Seq<char>| #[trigger] r.contains(x) implies v.contains(x) || x == t by {
            let k = choose|k: int| 0 <= k < r.len() && r[k] == x;
            if k < v.len() {
                assert(v[k] == x);
            }
        }
    }
}

/// A sorted list has the texts of the list, each as often, and none stands before one in
/// front of it.
pub proof fn lemma_sorted(v: Seq<Seq<char>>)
    ensures
        in_order(sorted(v)),
        sorted(v).to_multiset() == v.to_multiset(),
        sorted(v).len() == v.len(),
    decreases v.len(),
{
    broadcast use vstd::seq_lib::group_to_multiset_ensures;

    if v.len() > 0 {
        lemma_sorted(v.drop_last());
        lemma_inserted(sorted(v.drop_last()), v.last());
        assert(v.drop_last().push(v.last()) =~= v);
    } else {
        assert(sorted(v) =~= v);
    }
}

// ── Suggestions ──────────────────────────────────────────────────────────────

/// The commands that are suggested begin with what was typed, whatever the case of the
/// letters; no two have the same name, and every name that matches is among them.
pub proof fn lemma_commands_suggested(prefix: Seq<char>, names: Seq<Seq<char>>)
    ensures
        ({
            let r = new_matches(prefix, names);
            &&& forall|i: int|
                0 <= i < r.len() ==> lower_all(prefix).is_prefix_of(lower_all(#[trigger] r[i]))
                    && names.contains(r[i])
            &&& forall|i: int, j: int|
                0 <= i < j < r.len() ==> lower_all(#[trigger] r[i]) != lower_all(#[trigger] r[j])
            &&& forall|k: int|
                0 <= k < names.len() && lower_all(prefix).is_prefix_of(
                    lower_all(#[trigger] names[k]),
                ) ==> same_name_in(r, names[k])
        }),
    decreases names.len(),
{
    if names.len() > 0 {
        let f = names.drop_last();
        lemma_commands_suggested(prefix, f);
        let (s, r) = (new_matches(prefix, f), new_matches(prefix, names));
        assert forall|i: int| 0 <= i < r.len() implies lower_all(prefix).is_prefix_of(
            lower_all(#[trigger] r[i]),
        ) && names.contains(r[i]) by {
            if i < s.len() {
                assert(s[i] == r[i]);
                let k = choose|k: int| 0 <= k < f.len() && f[k] == s[i];
                assert(names[k] == r[i]);
            } else {
                assert(names[names.len() - 1] == r[i]);
            }
        }
        assert forall|i: int, j: int| 0 <= i < j < r.len() implies lower_all(#[trigger] r[i])
            != lower_all(#[trigger] r[j]) by {
            assert(s[i] == r[i]);
            if j < s.len() {
                assert(s[j] == r[j]);
            }
        }
        assert forall|k: int|
            0 <= k < names.len() && lower_all(prefix).is_prefix_of(
                lower_all(#[trigger] names[k]),
            ) implies same_name_in(r, names[k]) by {
            if k < f.len() {
                assert(f[k] == names[k]);
                let i = choose|i: int|
                    0 <= i < s.len() && lower_all(#[trigger] s[i]) == lower_all(names[k]);
                assert(r[i] == s[i]);
            } else if same_name_in(s, names[k]) {
                let i = choose|i: int|
                    0 <= i < s.len() && lower_all(#[trigger] s[i]) == lower_all(names[k]);
                assert(r[i] == s[i]);
            } else {
                assert(r[r.len() - 1] == names[k]);
            }
        }
    }
}

/// A path is parted behind its last separator.
pub proof fn lemma_path_parted(t: Seq<char>)
    ensures
        ({
            let n = leaf_start(t);
            &&& 0 <= n <= t.len()
            &&& n > 0 ==> t[n - 1] == '/' || t[n - 1] == '\\'
            &&& forall|i: int| n <= i < t.len() ==> #[trigger] t[i] != '/' && t[i] != '\\'
        }),
    decreases t.len(),
{
    if t.len() > 0 && t.last() != '/' && t.last() != '\\' {
        let f = t.drop_last();
        lemma_path_parted(f);
        assert forall|i: int| leaf_start(t) <= i < t.len() implies #[trigger] t[i] != '/' && t[i]
            != '\\' by {
            if i < f.len() {
                assert(f[i] == t[i]);
            }
        }
    }
}

proof fn lemma_path_inserted(v: Seq<(Seq<char>, bool)>, t: (Seq<char>, bool))
    ensures
        inserted_among(v, t, path_inserted(v, t)),
    decreases v.len(),
{
    let r = path_inserted(v, t);
    if v.len() > 0 && before(t.0, v.last().0) {
        let f = v.drop_last();
        lemma_path_inserted(f, t);
        let g = path_inserted(f, t);
        assert forall|x: (Seq<char>, bool)| r.contains(x) <==> v.contains(x) || x == t by {
            if r.contains(x) {
                let k = choose|k: int| 0 <= k < r.len() && r[k] == x;
                if k < g.len() {
                    assert(g[k] == x);
                    assert(g.contains(x));
                    if x != t {
                        let q = choose|q: int| 0 <= q < f.len() && f[q] == x;
                        assert(v[q] == x);
                    }
                } else {
                    assert(v[v.len() - 1] == x);
                }
            }
            if v.contains(x) {
                let q = choose|q: int| 0 <= q < v.len() && v[q] == x;
                if q < f.len() {
                    assert(f[q] == x);
                    assert(g.contains(x));
                    let k = choose|k: int| 0 <= k < g.len() && g[k] == x;
                    assert(r[k] == x);
                } else {
                    assert(r[r.len() - 1] == x);
                }
            }
            if x == t {
                assert(g.contains(t));
                let k = choose|k: int| 0 <= k < g.len() && g[k] == t;
                assert(r[k] == t);
            }
        }
    } else {
        assert forall|x: (Seq<char>, bool)| r.contains(x) <==> v.contains(x) || x == t by {
            if r.contains(x) {
                let k = choose|k: int| 0 <= k < r.len() && r[k] == x;
                if k < v.len() {
                    assert(v[k] == x);
                }
            }
            if v.contains(x) {
                let k = choose|k: int| 0 <= k < v.len() && v[k] == x;
                assert(r[k] == x);
            }
            assert(r[r.len() - 1] == t);
        }
    }
}

spec fn inserted_among(
    v: Seq<(Seq<char>, bool)>,
    t: (Seq<char>, bool),
    r: Seq<(Seq<char>, bool)>,
) -> bool {
    forall|x: (Seq<char>, bool)| #[trigger] r.contains(x) <==> v.contains(x) || x == t
}

/// The paths that are suggested for a word are those of the entries of its directory that
/// begin with its last part, each with the directory before it, and a separator behind it
/// where it is a directory; where only directories are asked for, no other is among them.
pub proof fn lemma_paths_suggested(
    token: Seq<char>,
    names: Seq<Seq<char>>,
    dirs: Seq<bool>,
    dirs_only: bool,
    separator: char,
    x: (Seq<char>, bool),
)
    requires
        dirs.len() >= names.len(),
    ensures
        path_matches(token, names, dirs, dirs_only, separator).contains(x) <==> exists|k: int|
            0 <= k < names.len() && suggested(token, names[k], dirs[k], dirs_only, separator, x)
                && #[trigger] dirs[k] == x.1,
    decreases names.len(),
{
    let r = path_matches(token, names, dirs, dirs_only, separator);
    if names.len() > 0 {
        let f = names.drop_last();
        let n = names.len() - 1;
        lemma_paths_suggested(token, f, dirs, dirs_only, separator, x);
        let s = path_matches(token, f, dirs, dirs_only, separator);
        let leaf = leaf_start(token);
        let one = (
            if dirs[n] {
                (token.take(leaf) + names.last()).push(separator)
            } else {
                token.take(leaf) + names.last()
            },
            dirs[n],
        );
        lemma_path_inserted(s, one);
        assert((token.take(leaf) + names.last()).push(separator) =~= token.take(leaf) + names.last()
            + seq![separator]);
        if r.contains(x) {
            if s.contains(x) {
                let k = choose|k: int|
                    0 <= k < f.len() && suggested(token, f[k], dirs[k], dirs_only, separator, x)
                        && #[trigger] dirs[k] == x.1;
                assert(names[k] == f[k]);
                assert(dirs[k] == x.1);
            } else {
                assert(x == one);
                assert(dirs[n] == x.1);
            }
        }
        if exists|k: int|
            0 <= k < names.len() && suggested(token, names[k], dirs[k], dirs_only, separator, x)
                && #[trigger] dirs[k] == x.1 {
            let k = choose|k: int|
                0 <= k < names.len() && suggested(token, names[k], dirs[k], dirs_only, separator, x)
                    && #[trigger] dirs[k] == x.1;
            if k < n {
                assert(f[k] == names[k]);
                assert(dirs[k] == x.1);
                assert(s.contains(x));
            }
        }
    }
}

/// Whether an entry of a directory is suggested as `x`.
pub open spec fn suggested(
    token: Seq<char>,
    name: Seq<char>,
    dir: bool,
    dirs_only: bool,
    separator: char,
    x: (Seq<char>, bool),
) -> bool {
    let leaf = leaf_start(token);
    &&& dirs_only ==> dir
    &&& lower_all(token.skip(leaf)).is_prefix_of(lower_all(name))
    &&& x.1 == dir
    &&& x.0 == (if dir {
        token.take(leaf) + name + seq![separator]
    } else {
        token.take(leaf) + name
    })
}

// ── Completion ───────────────────────────────────────────────────────────────

/// A single suggestion takes the place of the word, with a blank behind it where the word
/// is the first of the line. Of several, what they all begin with does, where that is
/// longer than the word; else the word stays.
pub proof fn lemma_completed(token: Seq<char>, first: bool, s: Seq<Seq<char>>)
    ensures
        ({
            let r = completion(token, first, s);
            &&& s.len() == 0 ==> r is None
            &&& s.len() == 1 && !first ==> r == Some(s[0])
            &&& s.len() == 1 && first && s[0].len() > 0 && s[0].last() != ' ' ==> r == Some(
                s[0] + seq![' '],
            )
            &&& s.len() > 1 && r is Some ==> (r->0).len() > token.len() && forall|i: int|
                0 <= i < s.len() ==> (r->0).is_prefix_of(#[trigger] s[i])
            &&& s.len() > 1 && r is None ==> common_all(s).len() <= token.len()
        }),
{
    if s.len() > 0 {
        lemma_common_all(s, token);
    }
    if s.len() == 1 && first && s[0].len() > 0 {
        assert(s[0].push(' ') =~= s[0] + seq![' ']);
    }
}

} // verus!

//! The input line: editing at a cursor, the history, and completion.
//!
//! The cursor counts characters.
use vstd::prelude::*;
use vstd::string::*;
use crate::cmd::CommandEntry;
use crate::text::{
    begins_with, byte_offset, bytes_before, chars_are, chars_of, is_space, lemma_encoded_len, lower_all,
    lower_chars, push_chars, push_text, same_chars, slice_chars, space_char, string_of, texts, to_text,
};

verus! {

// ── History ──────────────────────────────────────────────────────────────────

/// The index of the entry that one step back in the history leads to.
pub open spec fn older(len: nat, index: Option<usize>) -> int {
    match index {
        Some(i) => if i > len {
            len - 1
        } else if i > 0 {
            i - 1
        } else {
            0
        },
        None => len - 1,
    }
}

/// One step back in the history. The line being typed is kept as the draft.
pub fn history_up(
    commands: &[CommandEntry],
    input: &mut String,
    index: &mut Option<usize>,
    draft: &mut Option<String>,
) -> (moved: bool)
    ensures
        moved == (commands@.len() > 0),
        !moved ==> *final(input) == *old(input) && *final(index) == *old(index) && *final(draft)
            == *old(draft),
        moved ==> {
            let next = older(commands@.len(), *old(index));
            &&& *final(index) == Some(next as usize)
            &&& final(input)@ == commands@[next]@.command
            &&& *final(draft) == (if *old(index) is None {
                Some(*old(input))
            } else {
                *old(draft)
            })
        },
{
    if commands.len() == 0 {
        return false;
    }
    let next: usize = match *index {
        Some(i) => {
            if i > commands.len() {
                commands.len() - 1
            } else if i > 0 {
                i - 1
            } else {
                0
            }
        },
        None => {
            *draft = Some(input.clone());
            commands.len() - 1
        },
    };
    *index = Some(next);
    *input = commands[next].command.clone();
    true
}

/// One step forward in the history; past the newest entry the draft comes back.
pub fn history_down(
    commands: &[CommandEntry],
    input: &mut String,
    index: &mut Option<usize>,
    draft: &mut Option<String>,
) -> (moved: bool)
    ensures
        moved == (*old(index) is Some),
        match *old(index) {
            None => *final(input) == *old(input) && *final(index) is None && *final(draft) == *old(
                draft,
            ),
            Some(i) => if i + 1 < commands@.len() {
                &&& *final(index) == Some((i + 1) as usize)
                &&& final(input)@ == commands@[i + 1]@.command
                &&& *final(draft) == *old(draft)
            } else {
                &&& *final(index) is None
                &&& *final(draft) is None
                &&& final(input)@ == (match *old(draft) {
                    Some(d) => d@,
                    None => Seq::empty(),
                })
            },
        },
{
    let current: usize = match *index {
        Some(i) => i,
        None => {
            return false;
        },
    };
    let n: usize = commands.len();
    if n > 0 && current < n - 1 {
        *index = Some(current + 1);
        *input = commands[current + 1].command.clone();
    } else {
        *index = None;
        *input = match draft.take() {
            Some(d) => d,
            None => String::new(),
        };
    }
    true
}

/// Leaves the history.
pub fn reset_history_navigation(index: &mut Option<usize>, draft: &mut Option<String>)
    ensures
        *final(index) is None,
        *final(draft) is None,
{
    *index = None;
    *draft = None;
}

// ── Editing ──────────────────────────────────────────────────────────────────

pub fn input_char_len(input: &str) -> (n: usize)
    ensures
        n == input@.len(),
{
    chars_of(input).len()
}

/// The byte at which the character numbered `cursor` begins; the end of the text
/// where it has no such character.
pub fn cursor_to_byte(input: &str, cursor: usize) -> (b: usize)
    ensures
        b == byte_offset(
            input@,
            if cursor <= input@.len() {
                cursor as int
            } else {
                input@.len() as int
            },
        ),
{
    let v = chars_of(input);
    let n: usize = if cursor <= v.len() {
        cursor
    } else {
        v.len()
    };
    let len: usize = input.as_bytes().len();
    proof {
        lemma_encoded_len(v@, v@.len() as int);
        assert(v@.take(v@.len() as int) =~= v@);
        assert(byte_offset(v@, v@.len() as int) == len);
        lemma_offset_grows(v@, n as int, v@.len() as int);
    }
    bytes_before(&v, n) as usize
}

proof fn lemma_offset_grows(s: Seq<char>, a: int, b: int)
    requires
        a <= b,
    ensures
        byte_offset(s, a) <= byte_offset(s, b),
    decreases b - a,
{
    if a < b {
        lemma_offset_grows(s, a, b - 1);
    }
}

pub fn move_input_cursor_left(cursor: &mut usize) -> (moved: bool)
    ensures
        moved == (*old(cursor) > 0),
        *final(cursor) == (if moved {
            *old(cursor) - 1
        } else {
            0
        }),
{
    if *cursor == 0 {
        false
    } else {
        *cursor = *cursor - 1;
        true
    }
}

pub fn move_input_cursor_right(input: &str, cursor: &mut usize) -> (moved: bool)
    ensures
        moved == (*old(cursor) < input@.len()),
        *final(cursor) == (if moved {
            *old(cursor) + 1
        } else {
            *old(cursor) as int
        }),
{
    let len: usize = input_char_len(input);
    if *cursor >= len {
        false
    } else {
        *cursor = *cursor + 1;
        true
    }
}

/// Where an edit at `cursor` takes place in a text of `len` characters.
pub open spec fn place(cursor: usize, len: nat) -> int {
    if cursor <= len {
        cursor as int
    } else {
        len as int
    }
}

/// The place behind `cursor`, where there is one.
pub open spec fn stepped(cursor: usize) -> usize {
    if cursor < usize::MAX {
        (cursor + 1) as usize
    } else {
        cursor
    }
}

/// Puts a character in at the cursor, which moves behind it.
pub fn insert_input_char(input: &mut String, cursor: &mut usize, ch: char)
    ensures
        final(input)@ == old(input)@.insert(place(*old(cursor), old(input)@.len()), ch),
        *final(cursor) == stepped(*old(cursor)),
{
    let v = chars_of(input.as_str());
    let at: usize = if *cursor <= v.len() {
        *cursor
    } else {
        v.len()
    };
    let mut s = string_of(&v, 0, at);
    s.push(ch);
    let tail = slice_chars(&v, at, v.len());
    push_chars(&mut s, &tail);
    assert(s@ =~= old(input)@.insert(at as int, ch));
    *input = s;
    *cursor = (*cursor).saturating_add(1);
}

/// The text without the character at `at`.
fn without(v: &[char], at: usize) -> (s: String)
    requires
        at < v@.len(),
    ensures
        s@ == v@.remove(at as int),
{
    let n: usize = v.len();
    let mut s = string_of(v, 0, at);
    let tail = slice_chars(v, at + 1, n);
    push_chars(&mut s, &tail);
    assert(s@ =~= v@.remove(at as int));
    s
}

/// Takes out the character before the cursor, which moves back.
pub fn backspace_input_char(input: &mut String, cursor: &mut usize) -> (moved: bool)
    ensures
        moved == (*old(cursor) > 0),
        *final(cursor) == (if moved {
            *old(cursor) - 1
        } else {
            0
        }),
        final(input)@ == (if 0 < *old(cursor) <= old(input)@.len() {
            old(input)@.remove(*old(cursor) - 1)
        } else {
            old(input)@
        }),
{
    if *cursor == 0 {
        return false;
    }
    let v = chars_of(input.as_str());
    if *cursor <= v.len() {
        *input = without(&v, *cursor - 1);
    }
    *cursor = *cursor - 1;
    true
}

/// Takes out the character at the cursor, which stays.
pub fn delete_input_char(input: &mut String, cursor: &mut usize) -> (changed: bool)
    ensures
        changed == (*old(cursor) < old(input)@.len()),
        *final(cursor) == *old(cursor),
        final(input)@ == (if changed {
            old(input)@.remove(*old(cursor) as int)
        } else {
            old(input)@
        }),
{
    let v = chars_of(input.as_str());
    if *cursor >= v.len() {
        return false;
    }
    *input = without(&v, *cursor);
    true
}

/// A character that is put in and taken out again leaves the line as it was.
pub proof fn lemma_insert_backspace(s: Seq<char>, at: int, ch: char)
    requires
        0 <= at <= s.len(),
    ensures
        s.insert(at, ch).remove(at) == s,
{
    assert(s.insert(at, ch).remove(at) =~= s);
}

// ── The visible part ─────────────────────────────────────────────────────────

/// The first character that is shown of `len`, in a field of `max` characters
/// that has to show the cursor.
pub open spec fn view_start(len: nat, cursor: usize, max: usize) -> int {
    let start: int = if cursor >= max {
        cursor - (max - 1)
    } else {
        0
    };
    if start + max > len {
        len - max
    } else {
        start
    }
}

/// The part of the line that a field of `max_len` characters shows, and the
/// cursor's column in it.
pub fn input_view(input: &str, cursor: usize, max_len: usize) -> (r: (String, usize))
    ensures
        max_len == 0 ==> r.0@.len() == 0 && r.1 == 0,
        max_len > 0 && input@.len() <= max_len ==> r.0@ == input@ && r.1 == place(
            cursor,
            input@.len(),
        ),
        max_len > 0 && input@.len() > max_len ==> {
            let start = view_start(input@.len(), cursor, max_len);
            &&& r.0@ == input@.subrange(start, start + max_len)
            &&& r.1 == (if cursor - start <= max_len {
                cursor - start
            } else {
                max_len as int
            })
        },
{
    if max_len == 0 {
        return (String::new(), 0);
    }
    let v = chars_of(input);
    let len: usize = v.len();
    if len <= max_len {
        let col: usize = if cursor <= len {
            cursor
        } else {
            len
        };
        return (input.to_owned(), col);
    }
    let mut start: usize = cursor.saturating_sub(max_len - 1);
    if start > len - max_len {
        start = len - max_len;
    }
    let display = string_of(&v, start, start + max_len);
    let ahead: usize = cursor - start;
    let col: usize = if ahead <= max_len {
        ahead
    } else {
        max_len
    };
    (display, col)
}

/// A cursor in the line is always in sight.
pub proof fn lemma_view_shows_cursor(len: nat, cursor: usize, max: usize)
    requires
        0 < max < len,
        cursor <= len,
    ensures
        ({
            let start = view_start(len, cursor, max);
            0 <= start && start + max <= len && start <= cursor <= start + max
        }),
{
}

// ── Tokens ───────────────────────────────────────────────────────────────────

/// Whether `start..end` is the run without white space around `at`.
pub open spec fn is_token(s: Seq<char>, at: int, start: int, end: int) -> bool {
    &&& 0 <= start <= at <= end <= s.len()
    &&& forall|i: int| start <= i < end ==> !is_space(#[trigger] s[i])
    &&& start > 0 ==> is_space(s[start - 1])
    &&& end < s.len() ==> is_space(s[end])
}

/// Where the word at the cursor begins and ends.
pub fn token_bounds(input: &str, cursor: usize) -> (r: (usize, usize))
    ensures
        is_token(input@, place(cursor, input@.len()), r.0 as int, r.1 as int),
{
    let v = chars_of(input);
    let at: usize = if cursor <= v.len() {
        cursor
    } else {
        v.len()
    };
    let mut start: usize = at;
    while start > 0 && !space_char(v[start - 1])
        invariant
            start <= at <= v@.len(),
            forall|i: int| start <= i < at ==> !is_space(#[trigger] v@[i]),
        decreases start,
    {
        start = start - 1;
    }
    let mut end: usize = at;
    while end < v.len() && !space_char(v[end])
        invariant
            at <= end <= v@.len(),
            forall|i: int| at <= i < end ==> !is_space(#[trigger] v@[i]),
        decreases v@.len() - end,
    {
        end = end + 1;
    }
    (start, end)
}

/// Replaces the characters `start..end`, and takes the cursor behind what is put
/// there.
pub fn replace_token(
    input: &mut String,
    cursor: &mut usize,
    start: usize,
    end: usize,
    replacement: &str,
)
    requires
        start <= end,
        start + replacement@.len() <= usize::MAX,
    ensures
        final(input)@ == old(input)@.take(place(start, old(input)@.len())) + replacement@ + old(
            input,
        )@.skip(place(end, old(input)@.len())),
        *final(cursor) == start + replacement@.len(),
{
    let v = chars_of(input.as_str());
    let n: usize = v.len();
    let a: usize = if start <= n {
        start
    } else {
        n
    };
    let b: usize = if end <= n {
        end
    } else {
        n
    };
    let w = chars_of(replacement);
    let mut s = string_of(&v, 0, a);
    push_chars(&mut s, &w);
    let tail = slice_chars(&v, b, n);
    push_chars(&mut s, &tail);
    assert(s@ =~= v@.take(a as int) + w@ + v@.skip(b as int));
    *input = s;
    *cursor = start + w.len();
}

/// What two texts begin with in common.
pub open spec fn common(a: Seq<char>, b: Seq<char>) -> Seq<char>
    decreases a.len(),
{
    if a.len() > 0 && b.len() > 0 && a[0] == b[0] {
        seq![a[0]] + common(a.drop_first(), b.drop_first())
    } else {
        Seq::empty()
    }
}

/// What all texts begin with in common.
pub open spec fn common_all(v: Seq<Seq<char>>) -> Seq<char>
    decreases v.len(),
{
    if v.len() == 0 {
        Seq::empty()
    } else if v.len() == 1 {
        v[0]
    } else {
        common(common_all(v.drop_last()), v.last())
    }
}

fn common_len(a: &[char], b: &[char]) -> (n: usize)
    ensures
        n <= a@.len(),
        a@.take(n as int) == common(a@, b@),
{
    let mut n: usize = 0;
    assert(a@.skip(0) =~= a@);
    assert(b@.skip(0) =~= b@);
    assert(a@.take(0) + common(a@, b@) =~= common(a@, b@));
    while n < a.len() && n < b.len() && a[n] == b[n]
        invariant
            n <= a@.len(),
            n <= b@.len(),
            a@.take(n as int) + common(a@.skip(n as int), b@.skip(n as int)) == common(a@, b@),
        decreases a@.len() - n,
    {
        let ghost x = a@.skip(n as int);
        let ghost y = b@.skip(n as int);
        assert(x.drop_first() =~= a@.skip(n + 1));
        assert(y.drop_first() =~= b@.skip(n + 1));
        assert(a@.take(n as int) + (seq![x[0]] + common(x.drop_first(), y.drop_first())) =~= a@.take(
            n + 1,
        ) + common(a@.skip(n + 1), b@.skip(n + 1)));
        n = n + 1;
    }
    assert(a@.take(n as int) + Seq::<char>::empty() =~= a@.take(n as int));
    n
}

/// The longest text that all values begin with.
pub fn longest_common_prefix(values: &[String]) -> (r: String)
    ensures
        r@ == common_all(texts(values@)),
{
    if values.len() == 0 {
        return String::new();
    }
    let ghost all = texts(values@);
    let mut prefix = chars_of(values[0].as_str());
    let mut i: usize = 1;
    assert(all.take(1)[0] == prefix@);
    while i < values.len()
        invariant
            1 <= i <= values@.len(),
            all == texts(values@),
            prefix@ == common_all(all.take(i as int)),
        decreases values@.len() - i,
    {
        assert(all.take(i + 1).drop_last() =~= all.take(i as int));
        assert(all.take(i + 1).last() == values@[i as int]@);
        let w = chars_of(values[i].as_str());
        let n: usize = common_len(&prefix, &w);
        prefix = slice_chars(&prefix, 0, n);
        assert(prefix@ =~= common(common_all(all.take(i as int)), w@));
        i = i + 1;
    }
    assert(all.take(i as int) =~= all);
    to_text(&prefix)
}

proof fn lemma_common(a: Seq<char>, b: Seq<char>, c: Seq<char>)
    ensures
        common(a, b).is_prefix_of(a),
        common(a, b).is_prefix_of(b),
        c.is_prefix_of(a) && c.is_prefix_of(b) ==> c.is_prefix_of(common(a, b)),
    decreases a.len(),
{
    let r = common(a, b);
    if a.len() > 0 && b.len() > 0 && a[0] == b[0] {
        let (x, y) = (a.drop_first(), b.drop_first());
        let z = if c.len() > 0 {
            c.drop_first()
        } else {
            c
        };
        lemma_common(x, y, z);
        let s = common(x, y);
        assert(r =~= seq![a[0]] + s);
        assert(s =~= x.subrange(0, s.len() as int));
        assert(s =~= y.subrange(0, s.len() as int));
        assert forall|i: int| 0 <= i < r.len() implies r[i] == a[i] && r[i] == b[i] by {
            if i > 0 {
                assert(s[i - 1] == x[i - 1]);
                assert(s[i - 1] == y[i - 1]);
            }
        }
        assert(r =~= a.subrange(0, r.len() as int));
        assert(r =~= b.subrange(0, r.len() as int));
        if c.is_prefix_of(a) && c.is_prefix_of(b) {
            if c.len() > 0 {
                assert(c[0] == a.subrange(0, c.len() as int)[0]);
                assert forall|i: int| 0 <= i < z.len() implies z[i] == x[i] && z[i] == y[i] by {
                    assert(z[i] == c[i + 1]);
                    assert(c[i + 1] == a.subrange(0, c.len() as int)[i + 1]);
                    assert(c[i + 1] == b.subrange(0, c.len() as int)[i + 1]);
                }
                assert(z =~= x.subrange(0, z.len() as int));
                assert(z =~= y.subrange(0, z.len() as int));
                assert(z =~= s.subrange(0, z.len() as int));
                assert forall|i: int| 0 <= i < c.len() implies c[i] == r[i] by {
                    if i > 0 {
                        assert(c[i] == z[i - 1]);
                        assert(z[i - 1] == s.subrange(0, z.len() as int)[i - 1]);
                    }
                }
            }
            assert(c =~= r.subrange(0, c.len() as int));
        }
    } else {
        assert(r =~= a.subrange(0, 0));
        assert(r =~= b.subrange(0, 0));
        if c.is_prefix_of(a) && c.is_prefix_of(b) && c.len() > 0 {
            assert(c[0] == a.subrange(0, c.len() as int)[0]);
            assert(c[0] == b.subrange(0, c.len() as int)[0]);
        }
        if c.len() == 0 {
            assert(c =~= r.subrange(0, 0));
        }
    }
}

/// The common prefix begins every value, and no longer text does.
pub proof fn lemma_common_all(v: Seq<Seq<char>>, c: Seq<char>)
    requires
        v.len() > 0,
    ensures
        forall|i: int| 0 <= i < v.len() ==> common_all(v).is_prefix_of(#[trigger] v[i]),
        (forall|i: int| 0 <= i < v.len() ==> c.is_prefix_of(#[trigger] v[i])) ==> c.is_prefix_of(
            common_all(v),
        ),
    decreases v.len(),
{
    let r = common_all(v);
    if v.len() == 1 {
        assert(v[0] =~= v[0].subrange(0, v[0].len() as int));
    } else {
        let front = v.drop_last();
        let f = common_all(front);
        lemma_common_all(front, c);
        lemma_common(f, v.last(), c);
        assert forall|i: int| 0 <= i < v.len() implies r.is_prefix_of(#[trigger] v[i]) by {
            if i < front.len() {
                assert(f.is_prefix_of(front[i]));
                lemma_prefix_trans(r, f, v[i]);
            }
        }
        if forall|i: int| 0 <= i < v.len() ==> c.is_prefix_of(#[trigger] v[i]) {
            assert forall|i: int| 0 <= i < front.len() implies c.is_prefix_of(#[trigger] front[i]) by {
                assert(c.is_prefix_of(v[i]));
            }
            assert(c.is_prefix_of(v[v.len() - 1]));
        }
    }
}

proof fn lemma_prefix_trans(a: Seq<char>, b: Seq<char>, c: Seq<char>)
    requires
        a.is_prefix_of(b),
        b.is_prefix_of(c),
    ensures
        a.is_prefix_of(c),
{
    assert(a =~= c.subrange(0, a.len() as int)) by {
        assert forall|i: int| 0 <= i < a.len() implies a[i] == c[i] by {
            assert(a[i] == b.subrange(0, a.len() as int)[i]);
            assert(b[i] == c.subrange(0, b.len() as int)[i]);
        }
    }
}

// ── Completion ───────────────────────────────────────────────────────────────

/// The place behind the last separator of a path.
pub open spec fn leaf_start(t: Seq<char>) -> int
    decreases t.len(),
{
    if t.len() == 0 {
        0
    } else if t.last() == '\\' || t.last() == '/' {
        t.len() as int
    } else {
        leaf_start(t.drop_last())
    }
}

/// The directory part of a path, with its separator, and the rest.
pub fn path_token_parts(token: &str) -> (r: (String, String))
    ensures
        r.0@ == token@.take(leaf_start(token@)),
        r.1@ == token@.skip(leaf_start(token@)),
        0 <= leaf_start(token@) <= token@.len(),
{
    let v = chars_of(token);
    let mut n: usize = v.len();
    assert(v@.take(n as int) =~= v@);
    while n > 0 && v[n - 1] != '\\' && v[n - 1] != '/'
        invariant
            n <= v@.len(),
            leaf_start(v@.take(n as int)) == leaf_start(v@),
        decreases n,
    {
        assert(v@.take(n as int).drop_last() =~= v@.take(n - 1));
        n = n - 1;
    }
    let base = string_of(&v, 0, n);
    let leaf = string_of(&v, n, v.len());
    assert(base@ =~= v@.take(n as int));
    assert(leaf@ =~= v@.skip(n as int));
    (base, leaf)
}

/// Whether `a` stands before `b` in the order of their characters.
pub open spec fn before(a: Seq<char>, b: Seq<char>) -> bool
    decreases a.len(),
{
    if b.len() == 0 {
        false
    } else if a.len() == 0 {
        true
    } else if a[0] == b[0] {
        before(a.drop_first(), b.drop_first())
    } else {
        (a[0] as u32) < (b[0] as u32)
    }
}

fn stands_before(a: &[char], b: &[char]) -> (r: bool)
    ensures
        r == before(a@, b@),
{
    let mut i: usize = 0;
    assert(a@.skip(0) =~= a@);
    assert(b@.skip(0) =~= b@);
    while i < a.len() && i < b.len()
        invariant
            i <= a@.len(),
            i <= b@.len(),
            before(a@.skip(i as int), b@.skip(i as int)) == before(a@, b@),
        decreases a@.len() - i,
    {
        assert(a@.skip(i as int).drop_first() =~= a@.skip(i + 1));
        assert(b@.skip(i as int).drop_first() =~= b@.skip(i + 1));
        if a[i] != b[i] {
            return (a[i] as u32) < (b[i] as u32);
        }
        i = i + 1;
    }
    i < b.len()
}

/// `t` put into the sorted list `v`, behind those equal to it.
pub open spec fn inserted(v: Seq<Seq<char>>, t: Seq<char>) -> Seq<Seq<char>>
    decreases v.len(),
{
    if v.len() > 0 && before(t, v.last()) {
        inserted(v.drop_last(), t).push(v.last())
    } else {
        v.push(t)
    }
}

fn insert_sorted(v: &mut Vec<String>, t: String)
    ensures
        texts(final(v)@) == inserted(texts(old(v)@), t@),
{
    let c = chars_of(t.as_str());
    let ghost all = texts(v@);
    let mut n: usize = v.len();
    assert(all.take(n as int) =~= all);
    assert(inserted(all, t@) =~= inserted(all.take(n as int), t@) + all.skip(n as int));
    while n > 0 && stands_before(&c, &chars_of(v[n - 1].as_str()))
        invariant
            n <= v@.len(),
            v@ == old(v)@,
            all == texts(v@),
            c@ == t@,
            inserted(all, t@) == inserted(all.take(n as int), t@) + all.skip(n as int),
        decreases n,
    {
        let ghost front = all.take(n as int);
        assert(front.drop_last() =~= all.take(n - 1));
        assert(front.last() == v@[n - 1]@);
        assert(inserted(all.take(n - 1), t@).push(front.last()) + all.skip(n as int) =~= inserted(
            all.take(n - 1),
            t@,
        ) + all.skip(n - 1));
        n = n - 1;
    }
    let ghost text = t@;
    proof {
        if n > 0 {
            assert(all.take(n as int).last() == v@[n - 1]@);
        }
    }
    v.insert(n, t);
    assert(texts(v@) =~= all.take(n as int).push(text) + all.skip(n as int));
}

/// Paths, each with whether it is a directory.
pub open spec fn marked(v: Seq<(String, bool)>) -> Seq<(Seq<char>, bool)> {
    Seq::new(v.len(), |i: int| (v[i].0@, v[i].1))
}

/// `t` put into the list `v`, which is sorted by its paths, behind those equal to it.
pub open spec fn path_inserted(
    v: Seq<(Seq<char>, bool)>,
    t: (Seq<char>, bool),
) -> Seq<(Seq<char>, bool)>
    decreases v.len(),
{
    if v.len() > 0 && before(t.0, v.last().0) {
        path_inserted(v.drop_last(), t).push(v.last())
    } else {
        v.push(t)
    }
}

fn insert_path(v: &mut Vec<(String, bool)>, t: String, dir: bool)
    ensures
        marked(final(v)@) == path_inserted(marked(old(v)@), (t@, dir)),
{
    let c = chars_of(t.as_str());
    let ghost all = marked(v@);
    let ghost new = (t@, dir);
    let mut n: usize = v.len();
    assert(all.take(n as int) =~= all);
    assert(path_inserted(all, new) =~= path_inserted(all.take(n as int), new) + all.skip(n as int));
    while n > 0 && stands_before(&c, &chars_of(v[n - 1].0.as_str()))
        invariant
            n <= v@.len(),
            v@ == old(v)@,
            all == marked(v@),
            c@ == t@,
            new == (t@, dir),
            path_inserted(all, new) == path_inserted(all.take(n as int), new) + all.skip(n as int),
        decreases n,
    {
        let ghost front = all.take(n as int);
        assert(front.drop_last() =~= all.take(n - 1));
        assert(front.last() == (v@[n - 1].0@, v@[n - 1].1));
        assert(path_inserted(all.take(n - 1), new).push(front.last()) + all.skip(n as int)
            =~= path_inserted(all.take(n - 1), new) + all.skip(n - 1));
        n = n - 1;
    }
    proof {
        if n > 0 {
            assert(all.take(n as int).last() == (v@[n - 1].0@, v@[n - 1].1));
        }
    }
    v.insert(n, (t, dir));
    assert(marked(v@) =~= all.take(n as int).push(new) + all.skip(n as int));
}

/// Whether a name begins with a prefix, whatever the case of its ASCII letters.
pub open spec fn name_matches(name: Seq<char>, prefix: Seq<char>) -> bool {
    lower_all(prefix).is_prefix_of(lower_all(name))
}

/// The paths that complete a token, sorted: of the entries of its directory
/// those that begin with its last part, each behind the directory part and with a
/// separator where it is a directory itself.
pub open spec fn path_matches(
    token: Seq<char>,
    names: Seq<Seq<char>>,
    dirs: Seq<bool>,
    dirs_only: bool,
    separator: char,
) -> Seq<(Seq<char>, bool)>
    decreases names.len(),
{
    if names.len() == 0 {
        Seq::empty()
    } else {
        let front = path_matches(token, names.drop_last(), dirs, dirs_only, separator);
        let dir = dirs[names.len() - 1];
        let leaf = leaf_start(token);
        if (dir || !dirs_only) && name_matches(names.last(), token.skip(leaf)) {
            let shown = token.take(leaf) + names.last();
            path_inserted(
                front,
                (
                    if dir {
                        shown.push(separator)
                    } else {
                        shown
                    },
                    dir,
                ),
            )
        } else {
            front
        }
    }
}

/// The paths that complete `token`, each with whether it is a directory. `names` and
/// `dirs` are the entries of its directory, and whether each is one itself.
pub fn collect_path_candidates(
    token: &str,
    names: &[String],
    dirs: &[bool],
    dirs_only: bool,
    separator: char,
) -> (r: Vec<(String, bool)>)
    requires
        names@.len() == dirs@.len(),
    ensures
        marked(r@) == path_matches(token@, texts(names@), dirs@, dirs_only, separator),
{
    let (base, leaf) = path_token_parts(token);
    let wanted = lower_chars(&chars_of(leaf.as_str()));
    let ghost all = texts(names@);
    let mut r: Vec<(String, bool)> = Vec::new();
    let mut i: usize = 0;
    assert(all.take(0) =~= Seq::empty());
    assert(marked(r@) =~= Seq::empty());
    while i < names.len()
        invariant
            i <= names@.len(),
            names@.len() == dirs@.len(),
            all == texts(names@),
            base@ == token@.take(leaf_start(token@)),
            wanted@ == lower_all(token@.skip(leaf_start(token@))),
            marked(r@) == path_matches(token@, all.take(i as int), dirs@, dirs_only, separator),
        decreases names@.len() - i,
    {
        assert(all.take(i + 1).drop_last() =~= all.take(i as int));
        assert(all.take(i + 1).last() == names@[i as int]@);
        let dir = dirs[i];
        let name = lower_chars(&chars_of(names[i].as_str()));
        if (dir || !dirs_only) && begins_with(&name, &wanted) {
            let mut shown = base.clone();
            shown.append(names[i].as_str());
            if dir {
                shown.push(separator);
            }
            insert_path(&mut r, shown, dir);
        }
        i = i + 1;
    }
    assert(all.take(i as int) =~= all);
    r
}

/// The names that begin with a prefix: of two that differ in case only the first.
pub open spec fn new_matches(prefix: Seq<char>, names: Seq<Seq<char>>) -> Seq<Seq<char>>
    decreases names.len(),
{
    if names.len() == 0 {
        Seq::empty()
    } else {
        let front = new_matches(prefix, names.drop_last());
        if name_matches(names.last(), prefix) && !same_name_in(front, names.last()) {
            front.push(names.last())
        } else {
            front
        }
    }
}

/// Whether a list holds a name, whatever the case of its ASCII letters.
pub open spec fn same_name_in(v: Seq<Seq<char>>, name: Seq<char>) -> bool {
    exists|i: int| 0 <= i < v.len() && lower_all(#[trigger] v[i]) == lower_all(name)
}

/// A list sorted.
pub open spec fn sorted(v: Seq<Seq<char>>) -> Seq<Seq<char>>
    decreases v.len(),
{
    if v.len() == 0 {
        Seq::empty()
    } else {
        inserted(sorted(v.drop_last()), v.last())
    }
}

fn holds_name(v: &Vec<String>, name: &[char]) -> (r: bool)
    ensures
        r == same_name_in(texts(v@), name@),
{
    let wanted = lower_chars(name);
    let mut i: usize = 0;
    while i < v.len()
        invariant
            i <= v@.len(),
            wanted@ == lower_all(name@),
            forall|k: int| 0 <= k < i ==> lower_all(#[trigger] texts(v@)[k]) != lower_all(name@),
        decreases v@.len() - i,
    {
        let w = lower_chars(&chars_of(v[i].as_str()));
        if same_chars(&w, &wanted) {
            assert(lower_all(texts(v@)[i as int]) == lower_all(name@));
            return true;
        }
        i = i + 1;
    }
    false
}

/// The commands that complete `prefix` out of the names of executable files, in
/// the order in which the directories are searched.
pub fn collect_command_candidates(prefix: &str, names: &[String]) -> (r: Vec<String>)
    ensures
        texts(r@) == sorted(new_matches(prefix@, texts(names@))),
{
    let wanted = lower_chars(&chars_of(prefix));
    let ghost all = texts(names@);
    let mut found: Vec<String> = Vec::new();
    let mut i: usize = 0;
    assert(all.take(0) =~= Seq::empty());
    assert(texts(found@) =~= Seq::empty());
    while i < names.len()
        invariant
            i <= names@.len(),
            all == texts(names@),
            wanted@ == lower_all(prefix@),
            texts(found@) == new_matches(prefix@, all.take(i as int)),
        decreases names@.len() - i,
    {
        assert(all.take(i + 1).drop_last() =~= all.take(i as int));
        assert(all.take(i + 1).last() == names@[i as int]@);
        let name = chars_of(names[i].as_str());
        let low = lower_chars(&name);
        if begins_with(&low, &wanted) && !holds_name(&found, &name) {
            push_text(&mut found, names[i].clone());
        }
        i = i + 1;
    }
    assert(all.take(i as int) =~= all);
    let ghost list = texts(found@);
    let mut r: Vec<String> = Vec::new();
    let mut j: usize = 0;
    assert(list.take(0) =~= Seq::empty());
    assert(texts(r@) =~= Seq::empty());
    while j < found.len()
        invariant
            j <= found@.len(),
            list == texts(found@),
            texts(r@) == sorted(list.take(j as int)),
        decreases found@.len() - j,
    {
        assert(list.take(j + 1).drop_last() =~= list.take(j as int));
        assert(list.take(j + 1).last() == found@[j as int]@);
        insert_sorted(&mut r, found[j].clone());
        j = j + 1;
    }
    assert(list.take(j as int) =~= list);
    r
}

/// What completing the word at the cursor asks for.
#[derive(Debug, PartialEq, Eq)]
pub enum CompletionRequest {
    Nothing,
    /// Commands that begin with a prefix.
    Commands(String),
    /// Paths that begin with a token.
    Paths { token: String, dirs_only: bool },
}

/// The word of a line that `start..end` bounds asks for commands where it is the
/// first; behind `cd` for directories; else for paths where it looks like one.
pub open spec fn request_of(line: Seq<char>, start: int, end: int) -> (int, Seq<char>) {
    let token = line.subrange(start, end);
    if start == 0 {
        (1, token)
    } else if crate::text::word_of(line) == "cd"@ {
        (2, token)
    } else if token.contains('\\') || token.contains('/') || (token.len() > 0 && token[0] == '.') {
        (3, token)
    } else {
        (0, token)
    }
}

fn holds_char(v: &[char], c: char) -> (r: bool)
    ensures
        r == v@.contains(c),
{
    let mut i: usize = 0;
    while i < v.len()
        invariant
            i <= v@.len(),
            forall|k: int| 0 <= k < i ==> v@[k] != c,
        decreases v@.len() - i,
    {
        if v[i] == c {
            assert(v@[i as int] == c);
            return true;
        }
        i = i + 1;
    }
    false
}

fn first_token_is_cd(v: &[char]) -> (r: bool)
    ensures
        r == (crate::text::word_of(v@) == "cd"@),
{
    if v.len() > 0 && space_char(v[0]) {
        proof {
            reveal_strlit("cd");
            assert("cd"@.len() == 2);
        }
        return false;
    }
    let word = crate::text::first_word_chars(v);
    chars_are(&word, "cd")
}

/// What completing the word at the cursor asks for.
pub fn completion_request(input: &str, cursor: usize) -> (r: CompletionRequest)
    ensures
        exists|start: int, end: int|
            #![trigger request_of(input@, start, end)]
            is_token(input@, place(cursor, input@.len()), start, end) && match r {
                CompletionRequest::Nothing => request_of(input@, start, end).0 == 0,
                CompletionRequest::Commands(p) => request_of(input@, start, end) == (1int, p@),
                CompletionRequest::Paths { token, dirs_only } => request_of(input@, start, end) == (
                    if dirs_only {
                        2int
                    } else {
                        3int
                    },
                    token@,
                ),
            },
{
    let (start, end) = token_bounds(input, cursor);
    let v = chars_of(input);
    let token = slice_chars(&v, start, end);
    let ghost q = request_of(input@, start as int, end as int);
    if start == 0 {
        CompletionRequest::Commands(to_text(&token))
    } else if first_token_is_cd(&v) {
        CompletionRequest::Paths { token: to_text(&token), dirs_only: true }
    } else if holds_char(&token, '\\') || holds_char(&token, '/') || (token.len() > 0 && token[0]
        == '.') {
        CompletionRequest::Paths { token: to_text(&token), dirs_only: false }
    } else {
        CompletionRequest::Nothing
    }
}

/// What the word `token` is completed to: a single suggestion, with a blank behind
/// a command, or what all suggestions begin with where that is longer than the
/// word.
pub open spec fn completion(
    token: Seq<char>,
    first: bool,
    suggestions: Seq<Seq<char>>,
) -> Option<Seq<char>> {
    if suggestions.len() == 0 {
        None
    } else if suggestions.len() == 1 {
        let s = suggestions[0];
        Some(
            if first && !(s.len() > 0 && s.last() == ' ') {
                s.push(' ')
            } else {
                s
            },
        )
    } else if common_all(suggestions).len() > token.len() {
        Some(common_all(suggestions))
    } else {
        None
    }
}

/// Completes the word at the cursor with the suggestions for it. Says whether the
/// line changed.
pub fn autocomplete_input(input: &mut String, cursor: &mut usize, suggestions: &[String]) -> (done:
    bool)
    requires
        forall|i: int|
            0 <= i < suggestions@.len() ==> old(input)@.len() + (#[trigger] suggestions@[i])@.len()
                < usize::MAX,
    ensures
        exists|start: int, end: int|
            #![trigger is_token(old(input)@, place(*old(cursor), old(input)@.len()), start, end)]
            is_token(old(input)@, place(*old(cursor), old(input)@.len()), start, end) && match completion(
                old(input)@.subrange(start, end),
                start == 0,
                texts(suggestions@),
            ) {
                Some(t) => done && final(input)@ == old(input)@.take(start) + t + old(input)@.skip(
                    end,
                ) && *final(cursor) == start + t.len(),
                None => !done && *final(input) == *old(input) && *final(cursor) == *old(cursor),
            },
{
    let ghost line = input@;
    let (start, end) = token_bounds(input.as_str(), *cursor);
    let ghost at = place(*cursor, line.len());
    assert(is_token(line, at, start as int, end as int));
    let ghost all = texts(suggestions@);
    if suggestions.len() == 0 {
        return false;
    }
    let mut replacement = suggestions[0].clone();
    assert(all[0] == suggestions@[0]@);
    if suggestions.len() == 1 {
        let v = chars_of(replacement.as_str());
        if start == 0 && !(v.len() > 0 && v[v.len() - 1] == ' ') {
            replacement.push(' ');
        }
    } else {
        replacement = longest_common_prefix(suggestions);
        proof {
            lemma_common_all(all, Seq::empty());
            assert(common_all(all).is_prefix_of(all[0]));
        }
        if chars_of(replacement.as_str()).len() <= end - start {
            return false;
        }
    }
    replace_token(input, cursor, start, end, replacement.as_str());
    true
}

} // verus!

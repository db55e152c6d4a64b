//! What is saved is read back: the text of a session is a JSON document that
//! holds the same session.
use vstd::prelude::*;
use crate::json::{
    array_at, chars_at, document, find_field, is_control, is_number_char, is_ws, lemma_value_at,
    number_end, object_at, simple_escape, value_at, ws_end, JsonModel,
};
use crate::number::{
    digits_end, fraction_part, grain, is_digit, is_number, mantissa, parts, point, value, whole_of,
    LARGEST,
};
use crate::session::{
    app_of, app_text, apps_of, apps_text, escape, escaped, field_text, loaded, quoted, session_of,
    session_text, SavedAppModel, SessionModel,
};
use crate::text::{dec, digit, lemma_dec};

verus! {

/// The text `e` stands at `p` of `s`.
pub open spec fn stands(s: Seq<char>, p: int, e: Seq<char>) -> bool {
    &&& 0 <= p
    &&& p + e.len() <= s.len()
    &&& forall|i: int| 0 <= i < e.len() ==> s[p + i] == #[trigger] e[i]
}

proof fn lemma_stands_split(s: Seq<char>, p: int, a: Seq<char>, b: Seq<char>)
    requires
        stands(s, p, a + b),
    ensures
        stands(s, p, a),
        stands(s, p + a.len(), b),
{
    let e = a + b;
    assert forall|i: int| 0 <= i < a.len() implies s[p + i] == #[trigger] a[i] by {
        assert(a[i] == e[i]);
    }
    assert forall|i: int| 0 <= i < b.len() implies s[p + a.len() + i] == #[trigger] b[i] by {
        assert(b[i] == e[a.len() + i]);
    }
}

/// Text that a saved string can hold: of the control characters only the line
/// breaks and the tab are written with an escape.
pub open spec fn savable(t: Seq<char>) -> bool {
    forall|i: int|
        0 <= i < t.len() ==> !is_control(#[trigger] t[i]) || t[i] == '\n' || t[i] == '\r' || t[i]
            == '\t'
}

/// A session that its text can hold: its desktops exist, and so can its strings.
pub open spec fn session_savable(m: SessionModel) -> bool {
    &&& 1 <= m.current_desktop <= 4
    &&& forall|i: int| 0 <= i < m.apps.len() ==> app_savable(#[trigger] m.apps[i])
}

pub open spec fn app_savable(a: SavedAppModel) -> bool {
    1 <= a.desktop <= 4 && savable(a.title) && savable(a.path)
}

// ── White space ──────────────────────────────────────────────────────────────

proof fn lemma_no_ws(s: Seq<char>, p: int)
    requires
        0 <= p < s.len(),
        !is_ws(s[p]),
    ensures
        ws_end(s, p) == p,
{
}

proof fn lemma_skip_ws(s: Seq<char>, p: int, q: int)
    requires
        0 <= p <= q < s.len(),
        forall|i: int| p <= i < q ==> is_ws(#[trigger] s[i]),
        !is_ws(s[q]),
    ensures
        ws_end(s, p) == q,
    decreases q - p,
{
    if p < q {
        assert(is_ws(s[p]));
        lemma_skip_ws(s, p + 1, q);
    }
}

// ── Strings ──────────────────────────────────────────────────────────────────

proof fn lemma_escaped_read(s: Seq<char>, p: int, t: Seq<char>, out: Seq<char>)
    requires
        stands(s, p, escaped(t).push('"')),
        savable(t),
    ensures
        chars_at(s, p, out) == Ok::<_, crate::json::Fault>(
            (out + t, p + escaped(t).len() + 1),
        ),
    decreases t.len(),
{
    let e = escaped(t).push('"');
    if t.len() == 0 {
        assert(s[p + 0] == e[0]);
        assert(out + t =~= out);
    } else {
        let rest = t.drop_first();
        let c = t[0];
        let ec = escape(c);
        assert(savable(rest)) by {
            assert forall|i: int| 0 <= i < rest.len() implies !is_control(#[trigger] rest[i])
                || rest[i] == '\n' || rest[i] == '\r' || rest[i] == '\t' by {
                assert(rest[i] == t[i + 1]);
            }
        }
        assert(e =~= ec + escaped(rest).push('"'));
        lemma_stands_split(s, p, ec, escaped(rest).push('"'));
        lemma_escaped_read(s, p + ec.len(), rest, out.push(c));
        assert(out.push(c) + rest =~= out + t);
        assert(s[p + 0] == ec[0]);
        if ec.len() == 2 {
            assert(s[p + 1] == ec[1]);
            assert(simple_escape(s[p + 1]) == Some(c));
        } else {
            assert(!is_control(t[0]));
        }
    }
}

/// A quoted string at `p` is read as what was quoted.
proof fn lemma_quoted_read(s: Seq<char>, p: int, t: Seq<char>)
    requires
        stands(s, p, quoted(t)),
        savable(t),
    ensures
        s[p] == '"',
        chars_at(s, p + 1, Seq::empty()) == Ok::<_, crate::json::Fault>(
            (t, p + quoted(t).len()),
        ),
        value_at(s, p) == Ok::<_, crate::json::Fault>(
            (JsonModel::Str(t), p + quoted(t).len()),
        ),
{
    let q = quoted(t);
    assert(q =~= seq!['"'] + escaped(t).push('"'));
    lemma_stands_split(s, p, seq!['"'], escaped(t).push('"'));
    assert(s[p + 0] == q[0]);
    lemma_escaped_read(s, p + 1, t, Seq::empty());
    assert(Seq::<char>::empty() + t =~= t);
    lemma_no_ws(s, p);
}

// ── Numbers ──────────────────────────────────────────────────────────────────

proof fn lemma_all_digits_end(t: Seq<char>, i: int)
    requires
        0 <= i <= t.len(),
        forall|k: int| 0 <= k < t.len() ==> is_digit(#[trigger] t[k]),
    ensures
        digits_end(t, i) == t.len(),
    decreases t.len() - i,
{
    if i < t.len() {
        assert(is_digit(t[i]));
        lemma_all_digits_end(t, i + 1);
    }
}

proof fn lemma_value_dec(n: nat)
    ensures
        value(dec(n)) == n,
    decreases n,
{
    let d = dec(n);
    if n < 10 {
        assert(d.drop_last() =~= Seq::empty());
        assert(value(d.drop_last()) == 0);
    } else {
        lemma_value_dec(n / 10);
        assert(d.drop_last() =~= dec(n / 10));
        assert(d.last() == digit((n % 10) as int));
    }
}

/// A number that is written in decimal comes to itself.
proof fn lemma_dec_whole(n: nat)
    requires
        n <= LARGEST,
    ensures
        is_number(dec(n)),
        whole_of(dec(n)) == n,
{
    let t = dec(n);
    lemma_dec(n);
    lemma_value_dec(n);
    assert forall|k: int| 0 <= k < t.len() implies is_digit(#[trigger] t[k]) by {
        assert('0' <= t[k] <= '9');
    }
    lemma_all_digits_end(t, 0);
    lemma_all_digits_end(t, t.len() as int);
    assert(is_digit(t[0]));
    let p = parts(t);
    assert(p.start == 0 && p.whole == t.len() && p.fraction == t.len() && p.exponent == t.len());
    assert(mantissa(t) =~= t);
    assert(t.subrange(p.exponent, p.end) =~= Seq::empty());
    assert(point(t) == t.len());
    assert(t.take(t.len() as int) =~= t);
    assert(fraction_part(t, t.len() as int) =~= Seq::empty());
    assert(value(Seq::empty()) == 0);
    if n < LARGEST {
        crate::number::lemma_grain(n + 1);
        let g = grain(n + 1);
        assert(0 * g == 0 && (g - 1) * 1 == g - 1) by (nonlinear_arith);
    }
}

proof fn lemma_number_run(s: Seq<char>, p: int, q: int)
    requires
        0 <= p <= q < s.len(),
        forall|i: int| p <= i < q ==> is_number_char(#[trigger] s[i]),
        !is_number_char(s[q]),
    ensures
        number_end(s, p) == q,
    decreases q - p,
{
    if p < q {
        assert(is_number_char(s[p]));
        lemma_number_run(s, p + 1, q);
    }
}

/// A decimal number at `p` is read as it is written.
proof fn lemma_dec_read(s: Seq<char>, p: int, n: nat)
    requires
        n <= LARGEST,
        stands(s, p, dec(n)),
        p + dec(n).len() < s.len(),
        !is_number_char(s[p + dec(n).len()]),
    ensures
        value_at(s, p) == Ok::<_, crate::json::Fault>(
            (JsonModel::Num(dec(n)), p + dec(n).len()),
        ),
        JsonModel::Num(dec(n)).whole() == Some(n),
        !is_ws(s[p]),
{
    let d = dec(n);
    lemma_dec(n);
    lemma_dec_whole(n);
    assert forall|i: int| p <= i < p + d.len() implies is_number_char(#[trigger] s[i]) by {
        assert(s[p + (i - p)] == d[i - p]);
        assert('0' <= d[i - p] <= '9');
    }
    lemma_number_run(s, p, p + d.len());
    assert(s.subrange(p, p + d.len()) =~= d) by {
        assert forall|i: int| 0 <= i < d.len() implies s.subrange(p, p + d.len())[i] == d[i] by {
            assert(s[p + i] == d[i]);
        }
    }
    assert(s[p + 0] == d[0]);
    assert('0' <= d[0] <= '9');
    lemma_no_ws(s, p);
}

// ── Objects ──────────────────────────────────────────────────────────────────

/// A field whose value is read as `m` goes to the fields, and the object goes on
/// behind the comma or at the brace.
proof fn lemma_field(
    s: Seq<char>,
    p: int,
    key: Seq<char>,
    text: Seq<char>,
    m: JsonModel,
    fields: Seq<(Seq<char>, JsonModel)>,
)
    requires
        stands(s, p, field_text(key, text)),
        savable(key),
        p + field_text(key, text).len() < s.len(),
        text.len() > 0,
        !is_ws(text[0]),
        value_at(s, p + quoted(key).len() + 2) == Ok::<_, crate::json::Fault>(
            (m, p + field_text(key, text).len()),
        ),
    ensures
        s[p + field_text(key, text).len()] == ',' ==> object_at(s, p, fields) == object_at(
            s,
            p + field_text(key, text).len() + 1,
            fields.push((key, m)),
        ),
        s[p + field_text(key, text).len()] == '}' ==> object_at(s, p, fields) == object_at(
            s,
            p + field_text(key, text).len(),
            fields.push((key, m)),
        ),
{
    let f = field_text(key, text);
    let k = quoted(key);
    let r = p + f.len();
    lemma_stands_split(s, p, k + seq![':', ' '], text);
    lemma_stands_split(s, p, k, seq![':', ' ']);
    lemma_quoted_read(s, p, key);
    let c = p + k.len();
    assert(s[c + 0] == ':');
    assert(s[c + 1] == ' ');
    assert(s[c + 2 + 0] == text[0]);
    lemma_no_ws(s, p);
    lemma_no_ws(s, c);
    lemma_skip_ws(s, c + 1, c + 2);
    lemma_no_ws(s, c + 2);
    // The blank before the value does not matter.
    assert(value_at(s, c + 1) == value_at(s, c + 2));
    if s[r] == ',' || s[r] == '}' {
        lemma_no_ws(s, r);
    }
}

proof fn lemma_find_append(
    f: Seq<(Seq<char>, JsonModel)>,
    key: Seq<char>,
    m: JsonModel,
    i: int,
)
    requires
        0 <= i < f.len(),
        f[i] == (key, m),
        forall|k: int| 0 <= k < i ==> (#[trigger] f[k]).0 != key,
    ensures
        find_field(f, key) == Some(m),
    decreases i,
{
    if i > 0 {
        assert(f[0].0 != key);
        let g = f.drop_first();
        assert(g[i - 1] == f[i]);
        assert forall|k: int| 0 <= k < i - 1 implies (#[trigger] g[k]).0 != key by {
            assert(g[k] == f[k + 1]);
        }
        lemma_find_append(g, key, m, i - 1);
    }
}

/// The fields of a saved window.
#[verifier::opaque]
spec fn app_fields(a: SavedAppModel) -> Seq<(Seq<char>, JsonModel)> {
    seq![
        ("title"@, JsonModel::Str(a.title)),
        ("path"@, JsonModel::Str(a.path)),
        ("desktop"@, JsonModel::Num(dec(a.desktop as nat))),
        ("x"@, JsonModel::Num(dec(a.x as nat))),
        ("y"@, JsonModel::Num(dec(a.y as nat))),
        ("w"@, JsonModel::Num(dec(a.w as nat))),
        ("h"@, JsonModel::Num(dec(a.h as nat))),
    ]
}

/// A value that is written on one line.
spec fn flat_text(m: JsonModel) -> Seq<char> {
    match m {
        JsonModel::Str(t) => quoted(t),
        JsonModel::Num(t) => t,
        _ => Seq::empty(),
    }
}

/// A string, or a number in decimal, that is read as it is written.
spec fn flat(m: JsonModel) -> bool {
    match m {
        JsonModel::Str(t) => savable(t),
        JsonModel::Num(t) => exists|n: nat| n <= LARGEST && t == #[trigger] dec(n),
        _ => false,
    }
}

/// The fields from `i` on with commas between them, and the closing brace.
spec fn fields_text(f: Seq<(Seq<char>, JsonModel)>, i: int) -> Seq<char>
    decreases f.len() - i,
{
    if i < 0 || i >= f.len() {
        Seq::empty()
    } else if i + 1 == f.len() {
        field_text(f[i].0, flat_text(f[i].1)).push('}')
    } else {
        field_text(f[i].0, flat_text(f[i].1)).push(',') + fields_text(f, i + 1)
    }
}

spec fn flat_fields(f: Seq<(Seq<char>, JsonModel)>) -> bool {
    forall|i: int| 0 <= i < f.len() ==> savable((#[trigger] f[i]).0) && flat(f[i].1)
}

proof fn lemma_keys()
    ensures
        savable("title"@),
        savable("path"@),
        savable("desktop"@),
        savable("x"@),
        savable("y"@),
        savable("w"@),
        savable("h"@),
        savable("current_desktop"@),
        savable("apps"@),
        "title"@ != "path"@,
        "title"@ != "desktop"@,
        "title"@ != "x"@,
        "title"@ != "y"@,
        "title"@ != "w"@,
        "title"@ != "h"@,
        "path"@ != "desktop"@,
        "path"@ != "x"@,
        "path"@ != "y"@,
        "path"@ != "w"@,
        "path"@ != "h"@,
        "desktop"@ != "x"@,
        "desktop"@ != "y"@,
        "desktop"@ != "w"@,
        "desktop"@ != "h"@,
        "x"@ != "y"@,
        "x"@ != "w"@,
        "x"@ != "h"@,
        "y"@ != "w"@,
        "y"@ != "h"@,
        "w"@ != "h"@,
        "current_desktop"@ != "apps"@,
{
    reveal_strlit("title");
    reveal_strlit("path");
    reveal_strlit("desktop");
    reveal_strlit("x");
    reveal_strlit("y");
    reveal_strlit("w");
    reveal_strlit("h");
    reveal_strlit("current_desktop");
    reveal_strlit("apps");
    assert("x"@[0] != "y"@[0]);
    assert("x"@[0] != "w"@[0]);
    assert("x"@[0] != "h"@[0]);
    assert("y"@[0] != "w"@[0]);
    assert("y"@[0] != "h"@[0]);
    assert("w"@[0] != "h"@[0]);
    assert("title"@.len() == 5 && "path"@.len() == 4 && "desktop"@.len() == 7);
}

/// One field with a string or a number.
proof fn lemma_flat_field(
    s: Seq<char>,
    p: int,
    key: Seq<char>,
    m: JsonModel,
    fields: Seq<(Seq<char>, JsonModel)>,
    after: char,
)
    requires
        stands(s, p, field_text(key, flat_text(m)).push(after)),
        after == ',' || after == '}',
        savable(key),
        flat(m),
    ensures
        ({
            let r = p + field_text(key, flat_text(m)).len();
            &&& s[r] == after
            &&& after == ',' ==> object_at(s, p, fields) == object_at(
                s,
                r + 1,
                fields.push((key, m)),
            )
            &&& after == '}' ==> object_at(s, p, fields) == object_at(s, r, fields.push((key, m)))
        }),
{
    let text = flat_text(m);
    let f = field_text(key, text);
    let k = quoted(key);
    let r = p + f.len();
    assert(f.push(after) =~= f + seq![after]);
    lemma_stands_split(s, p, f, seq![after]);
    assert(s[r + 0] == seq![after][0]);
    lemma_stands_split(s, p, k + seq![':', ' '], text);
    let v = p + k.len() + 2;
    assert(v == p + (k + seq![':', ' ']).len());
    match m {
        JsonModel::Str(t) => {
            lemma_quoted_read(s, v, t);
            assert(text[0] == '"');
        },
        JsonModel::Num(t) => {
            let n = choose|n: nat| n <= LARGEST && t == #[trigger] dec(n);
            lemma_dec_read(s, v, n);
            lemma_dec(n);
            assert(s[v + 0] == text[0]);
        },
        _ => {},
    }
    lemma_field(s, p, key, text, m, fields);
}

/// Fields with strings and numbers, from the one numbered `i` on.
proof fn lemma_flat_object(s: Seq<char>, p: int, f: Seq<(Seq<char>, JsonModel)>, i: int)
    requires
        0 <= i < f.len(),
        flat_fields(f),
        stands(s, p, fields_text(f, i)),
    ensures
        object_at(s, p, f.take(i)) == Ok::<_, crate::json::Fault>(
            (JsonModel::Obj(f), p + fields_text(f, i).len()),
        ),
    decreases f.len() - i,
{
    let (key, m) = f[i];
    assert(savable(f[i].0) && flat(f[i].1));
    let one = field_text(key, flat_text(m));
    assert(f.take(i).push(f[i]) =~= f.take(i + 1));
    if i + 1 == f.len() {
        lemma_flat_field(s, p, key, m, f.take(i), '}');
        let r = p + one.len();
        lemma_no_ws(s, r);
        assert(f.take(i + 1) =~= f);
    } else {
        lemma_stands_split(s, p, one.push(','), fields_text(f, i + 1));
        lemma_flat_field(s, p, key, m, f.take(i), ',');
        lemma_flat_object(s, p + one.len() + 1, f, i + 1);
    }
}

proof fn lemma_app_fields(a: SavedAppModel)
    requires
        app_savable(a),
    ensures
        flat_fields(app_fields(a)),
        app_fields(a).len() == 7,
{
    reveal(app_fields);
    lemma_keys();
    let f = app_fields(a);
    assert(flat(JsonModel::Num(dec(a.desktop as nat))));
    assert(flat(JsonModel::Num(dec(a.x as nat))));
    assert(flat(JsonModel::Num(dec(a.y as nat))));
    assert(flat(JsonModel::Num(dec(a.w as nat))));
    assert(flat(JsonModel::Num(dec(a.h as nat))));
    assert forall|i: int| 0 <= i < f.len() implies savable((#[trigger] f[i]).0) && flat(f[i].1) by {
        assert(i == 0 || i == 1 || i == 2 || i == 3 || i == 4 || i == 5 || i == 6);
    }
}

proof fn lemma_app_text(a: SavedAppModel)
    ensures
        app_text(a) == seq!['{'] + fields_text(app_fields(a), 0),
{
    reveal(app_text);
    reveal(app_fields);
    let f = app_fields(a);
    let t1 = field_text("title"@, quoted(a.title));
    let t2 = field_text("path"@, quoted(a.path));
    let t3 = field_text("desktop"@, dec(a.desktop as nat));
    let t4 = field_text("x"@, dec(a.x as nat));
    let t5 = field_text("y"@, dec(a.y as nat));
    let t6 = field_text("w"@, dec(a.w as nat));
    let t7 = field_text("h"@, dec(a.h as nat));
    let r7 = t7.push('}');
    assert(fields_text(f, 6) == r7);
    let r6 = t6.push(',') + r7;
    assert(fields_text(f, 5) == r6);
    let r5 = t5.push(',') + r6;
    assert(fields_text(f, 4) == r5);
    let r4 = t4.push(',') + r5;
    assert(fields_text(f, 3) == r4);
    let r3 = t3.push(',') + r4;
    assert(fields_text(f, 2) == r3);
    let r2 = t2.push(',') + r3;
    assert(fields_text(f, 1) == r2);
    let r1 = t1.push(',') + r2;
    assert(fields_text(f, 0) == r1);
    lemma_joined(t1, t2, t3, t4, t5, t6, t7);
}

proof fn lemma_joined(
    t1: Seq<char>,
    t2: Seq<char>,
    t3: Seq<char>,
    t4: Seq<char>,
    t5: Seq<char>,
    t6: Seq<char>,
    t7: Seq<char>,
)
    ensures
        seq!['{'] + t1 + seq![','] + t2 + seq![','] + t3 + seq![','] + t4 + seq![','] + t5 + seq![
            ',',
        ] + t6 + seq![','] + t7 + seq!['}'] == seq!['{'] + (t1.push(',') + (t2.push(',') + (
        t3.push(',') + (t4.push(',') + (t5.push(',') + (t6.push(',') + t7.push('}'))))))),
{
    let c = seq![','];
    let x6 = t6.push(',') + t7.push('}');
    assert(t6 + c + t7 + seq!['}'] =~= x6);
    let x5 = t5.push(',') + x6;
    let x4 = t4.push(',') + x5;
    let x3 = t3.push(',') + x4;
    let x2 = t2.push(',') + x3;
    let h1 = seq!['{'] + t1 + c;
    let h2 = h1 + t2 + c;
    let h3 = h2 + t3 + c;
    let h4 = h3 + t4 + c;
    let h5 = h4 + t5 + c;
    assert(h5 + t6 + c + t7 + seq!['}'] =~= h5 + x6);
    assert(h5 + x6 =~= h4 + x5);
    assert(h4 + x5 =~= h3 + x4);
    assert(h3 + x4 =~= h2 + x3);
    assert(h2 + x3 =~= h1 + x2);
    assert(h1 + x2 =~= seq!['{'] + (t1.push(',') + x2));
}

/// The fields of a saved window describe it.
proof fn lemma_app_of(a: SavedAppModel)
    requires
        app_savable(a),
    ensures
        app_of(JsonModel::Obj(app_fields(a))) == Some(a),
{
    reveal(app_fields);
    lemma_keys();
    let f = app_fields(a);
    lemma_find_append(f, "title"@, JsonModel::Str(a.title), 0);
    lemma_find_append(f, "path"@, JsonModel::Str(a.path), 1);
    lemma_find_append(f, "desktop"@, JsonModel::Num(dec(a.desktop as nat)), 2);
    lemma_find_append(f, "x"@, JsonModel::Num(dec(a.x as nat)), 3);
    lemma_find_append(f, "y"@, JsonModel::Num(dec(a.y as nat)), 4);
    lemma_find_append(f, "w"@, JsonModel::Num(dec(a.w as nat)), 5);
    lemma_find_append(f, "h"@, JsonModel::Num(dec(a.h as nat)), 6);
    lemma_dec_whole(a.desktop as nat);
    lemma_dec_whole(a.x as nat);
    lemma_dec_whole(a.y as nat);
    lemma_dec_whole(a.w as nat);
    lemma_dec_whole(a.h as nat);
    assert(app_of(JsonModel::Obj(f))->0 =~= a);
}

/// The text of a saved window at `p` is read as its fields.
proof fn lemma_app_read(s: Seq<char>, p: int, a: SavedAppModel)
    requires
        stands(s, p, app_text(a)),
        app_savable(a),
    ensures
        value_at(s, p) == Ok::<_, crate::json::Fault>(
            (JsonModel::Obj(app_fields(a)), p + app_text(a).len()),
        ),
        s[p] == '{',
        app_text(a).len() > 0,
{
    let f = app_fields(a);
    lemma_app_text(a);
    lemma_app_fields(a);
    lemma_stands_split(s, p, seq!['{'], fields_text(f, 0));
    assert(s[p + 0] == seq!['{'][0]);
    lemma_flat_object(s, p + 1, f, 0);
    assert(f.take(0) =~= Seq::empty());
    lemma_no_ws(s, p);
}

// ── Sessions ─────────────────────────────────────────────────────────────────

spec fn app_models(apps: Seq<SavedAppModel>) -> Seq<JsonModel> {
    Seq::new(apps.len(), |i: int| JsonModel::Obj(app_fields(apps[i])))
}

/// The lines of the windows from `i` on, up to the closing bracket at `end`.
proof fn lemma_apps_read(s: Seq<char>, p: int, apps: Seq<SavedAppModel>, i: int, end: int)
    requires
        0 <= i <= apps.len(),
        forall|k: int| 0 <= k < apps.len() ==> app_savable(#[trigger] apps[k]),
        stands(s, p, apps_text(apps, i)),
        p + apps_text(apps, i).len() + 2 == end,
        end < s.len(),
        s[end - 2] == ' ',
        s[end - 1] == ' ',
        s[end] == ']',
    ensures
        array_at(s, p, app_models(apps).take(i)) == Ok::<_, crate::json::Fault>(
            (JsonModel::Arr(app_models(apps)), end + 1),
        ),
    decreases apps.len() - i,
{
    let done = app_models(apps).take(i);
    reveal_strlit("    ");
    if i == apps.len() {
        lemma_skip_ws(s, p, end);
        assert(done =~= app_models(apps));
    } else {
        let line = "    "@ + app_text(apps[i]);
        let sep = if i + 1 < apps.len() {
            seq![',', '\n']
        } else {
            seq!['\n']
        };
        let rest = apps_text(apps, i + 1);
        assert(apps_text(apps, i) =~= line + (sep + rest));
        lemma_stands_split(s, p, line, sep + rest);
        lemma_stands_split(s, p, "    "@, app_text(apps[i]));
        let q = p + 4;
        lemma_stands_split(s, p + line.len(), sep, rest);
        assert(app_savable(apps[i]));
        lemma_app_read(s, q, apps[i]);
        let m = JsonModel::Obj(app_fields(apps[i]));
        let r = q + app_text(apps[i]).len();
        assert forall|k: int| p <= k < q implies is_ws(#[trigger] s[k]) by {
            assert(s[p + (k - p)] == "    "@[k - p]);
        }
        lemma_skip_ws(s, p, q);
        lemma_no_ws(s, q);
        lemma_value_at(s, q);
        let next = r + sep.len();
        lemma_apps_read(s, next, apps, i + 1, end);
        assert(done.push(m) =~= app_models(apps).take(i + 1));
        if i + 1 < apps.len() {
            assert(s[r + 0] == sep[0]);
            assert(s[r + 1] == sep[1]);
            lemma_no_ws(s, r);
            // The line break before the next line does not matter.
            lemma_array_ws(s, r + 1, next, done.push(m));
        } else {
            assert(s[r + 0] == sep[0]);
            assert(rest =~= Seq::empty());
            lemma_skip_ws(s, r, end);
            lemma_no_ws(s, end);
            lemma_array_ws(s, next, end, done.push(m));
        }
    }
}

/// White space before an item does not matter.
proof fn lemma_array_ws(s: Seq<char>, p: int, q: int, items: Seq<JsonModel>)
    requires
        0 <= p <= q < s.len(),
        forall|k: int| p <= k < q ==> is_ws(#[trigger] s[k]),
    ensures
        array_at(s, p, items) == array_at(s, q, items),
    decreases q - p,
{
    if p < q {
        assert(is_ws(s[p]));
        lemma_array_ws(s, p + 1, q, items);
        assert(ws_end(s, p) == ws_end(s, p + 1));
    }
}

proof fn lemma_apps_of(apps: Seq<SavedAppModel>, n: int)
    requires
        0 <= n <= apps.len(),
        forall|k: int|
            0 <= k < apps.len() ==> app_of(JsonModel::Obj(app_fields(#[trigger] apps[k]))) == Some(
                apps[k],
            ),
    ensures
        apps_of(app_models(apps).take(n)) == apps.take(n),
    decreases n,
{
    let items = app_models(apps).take(n);
    if n > 0 {
        lemma_apps_of(apps, n - 1);
        assert(items.drop_last() =~= app_models(apps).take(n - 1));
        assert(items.last() == JsonModel::Obj(app_fields(apps[n - 1])));
        assert(apps.take(n - 1).push(apps[n - 1]) =~= apps.take(n));
    }
}

/// The list of windows at `v` is read as their objects.
proof fn lemma_list_read(s: Seq<char>, v: int, apps: Seq<SavedAppModel>)
    requires
        stands(s, v, "[\n"@ + apps_text(apps, 0) + "  ]"@),
        forall|k: int| 0 <= k < apps.len() ==> app_savable(#[trigger] apps[k]),
    ensures
        value_at(s, v) == Ok::<_, crate::json::Fault>(
            (
                JsonModel::Arr(app_models(apps)),
                v + ("[\n"@ + apps_text(apps, 0) + "  ]"@).len(),
            ),
        ),
        s[v] == '[',
{
    reveal_strlit("[\n");
    reveal_strlit("  ]");
    let open = "[\n"@;
    let close = "  ]"@;
    let body = apps_text(apps, 0);
    lemma_stands_split(s, v, open + body, close);
    lemma_stands_split(s, v, open, body);
    let b = v + 2 + body.len();
    assert(s[v + 0] == open[0]);
    assert(s[v + 1] == open[1]);
    assert(s[b + 0] == close[0]);
    assert(s[b + 1] == close[1]);
    assert(s[b + 2] == close[2]);
    lemma_apps_read(s, v + 2, apps, 0, b + 2);
    assert(app_models(apps).take(0) =~= Seq::empty());
    lemma_array_ws(s, v + 1, v + 2, Seq::empty());
    lemma_no_ws(s, v);
}

/// The fields of a session.
spec fn session_fields(m: SessionModel) -> Seq<(Seq<char>, JsonModel)> {
    seq![
        ("current_desktop"@, JsonModel::Num(dec(m.current_desktop as nat))),
        ("apps"@, JsonModel::Arr(app_models(m.apps))),
    ]
}

/// Where the parts of a session stand: `p2`, `p3` and `p4` are the ends of the
/// first field, of what follows it and of the second field.
proof fn lemma_session_parts(m: SessionModel, d: Seq<char>, a: Seq<char>)
    requires
        d == field_text("current_desktop"@, dec(m.current_desktop as nat)),
        a == field_text("apps"@, "[\n"@ + apps_text(m.apps, 0) + "  ]"@),
    ensures
        ({
            let s = session_text(m);
            let p2: int = 4 + d.len() as int;
            let p3: int = p2 + 4;
            let p4: int = p3 + a.len();
            &&& s.len() == p4 + 3
            &&& s[0] == '{'
            &&& forall|k: int| 1 <= k < 4 ==> is_ws(#[trigger] s[k])
            &&& stands(s, 4, d.push(','))
            &&& forall|k: int| p2 + 1 <= k < p3 ==> is_ws(#[trigger] s[k])
            &&& stands(s, p3, a)
            &&& s[p4] == '\n'
            &&& s[p4 + 1] == '}'
            &&& s[p4 + 2] == '\n'
        }),
{
    let s = session_text(m);
    reveal_strlit("{\n  ");
    reveal_strlit(",\n  ");
    reveal_strlit("\n}\n");
    let head = "{\n  "@;
    let mid = ",\n  "@;
    let tail = "\n}\n"@;
    assert(s == head + d + mid + a + tail);
    assert forall|i: int| 0 <= i < d.push(',').len() implies s[4 + i] == #[trigger] d.push(',')[i] by {
        if i < d.len() {
            assert(s[4 + i] == d[i]);
        } else {
            assert(s[4 + i] == mid[0]);
        }
    }
    let p3 = 4 + d.len() + 4;
    assert forall|i: int| 0 <= i < a.len() implies s[p3 + i] == #[trigger] a[i] by {}
}

/// The text of a session is read as its fields.
#[verifier::spinoff_prover]
#[verifier::rlimit(50)]
proof fn lemma_session_read(m: SessionModel)
    requires
        session_savable(m),
    ensures
        document(session_text(m)) == Ok::<_, crate::json::Fault>(
            JsonModel::Obj(session_fields(m)),
        ),
{
    let s = session_text(m);
    let m1 = JsonModel::Num(dec(m.current_desktop as nat));
    let d = field_text("current_desktop"@, flat_text(m1));
    let list = "[\n"@ + apps_text(m.apps, 0) + "  ]"@;
    let a = field_text("apps"@, list);
    lemma_keys();
    lemma_session_parts(m, d, a);
    lemma_session_walk(s, m, d, list, a);
    let f2 = session_fields(m);
    let p4: int = 8int + d.len() + a.len();
    assert(ws_end(s, p4 + 3) == p4 + 3);
    assert(ws_end(s, p4 + 2) == s.len());
}

proof fn lemma_session_walk(
    s: Seq<char>,
    m: SessionModel,
    d: Seq<char>,
    list: Seq<char>,
    a: Seq<char>,
)
    requires
        session_savable(m),
        list == "[\n"@ + apps_text(m.apps, 0) + "  ]"@,
        d == field_text(
            "current_desktop"@,
            flat_text(JsonModel::Num(dec(m.current_desktop as nat))),
        ),
        a == field_text("apps"@, list),
        s.len() == 8 + d.len() + a.len() + 3,
        s[0] == '{',
        forall|k: int| 1 <= k < 4 ==> is_ws(#[trigger] s[k]),
        stands(s, 4, d.push(',')),
        forall|k: int| 4 + d.len() + 1 <= k < 8 + d.len() ==> is_ws(#[trigger] s[k]),
        stands(s, 8 + d.len() as int, a),
        s[8int + d.len() + a.len()] == '\n',
        s[8int + d.len() + a.len() + 1] == '}',
    ensures
        value_at(s, 0) == Ok::<_, crate::json::Fault>(
            (JsonModel::Obj(session_fields(m)), 8int + d.len() + a.len() + 2),
        ),
{
    lemma_keys();
    let m1 = JsonModel::Num(dec(m.current_desktop as nat));
    let m2 = JsonModel::Arr(app_models(m.apps));
    let p2: int = 4 + d.len() as int;
    let p3: int = p2 + 4;
    let p4: int = p3 + a.len();
    let f0 = Seq::<(Seq<char>, JsonModel)>::empty();
    let f1 = f0.push(("current_desktop"@, m1));
    let f2 = f1.push(("apps"@, m2));
    assert(flat(m1));
    lemma_flat_field(s, 4, "current_desktop"@, m1, f0, ',');
    lemma_object_ws(s, 1, 4, f0);
    lemma_object_ws(s, p2 + 1, p3, f1);
    let k = quoted("apps"@);
    lemma_stands_split(s, p3, k + seq![':', ' '], list);
    let v = p3 + k.len() + 2;
    assert(v == p3 + (k + seq![':', ' ']).len());
    lemma_list_read(s, v, m.apps);
    reveal_strlit("[\n");
    assert(list[0] == '[');
    lemma_last_field(s, p3, "apps"@, list, m2, f1);
    lemma_no_ws(s, p4 + 1);
    lemma_no_ws(s, 0);
    assert(f2 =~= session_fields(m));
    assert(object_at(s, p4 + 1, f2) == Ok::<_, crate::json::Fault>(
        (JsonModel::Obj(f2), p4 + 2),
    ));
    assert(object_at(s, 1, f0) == object_at(s, p4 + 1, f2));
}

/// A session that is saved and read again is the same: its desktop, and every
/// window with its title, directory, desktop and place.
pub proof fn lemma_session_round_trip(m: SessionModel)
    requires
        session_savable(m),
    ensures
        document(session_text(m)) matches Ok(j) && session_of(j) == m,
{
    lemma_session_read(m);
    lemma_keys();
    let f = session_fields(m);
    let n = m.current_desktop as nat;
    let items = app_models(m.apps);
    lemma_find_append(f, "current_desktop"@, JsonModel::Num(dec(n)), 0);
    lemma_find_append(f, "apps"@, JsonModel::Arr(items), 1);
    lemma_dec_whole(n);
    assert forall|i: int| 0 <= i < m.apps.len() implies app_of(
        JsonModel::Obj(app_fields(#[trigger] m.apps[i])),
    ) == Some(m.apps[i]) by {
        assert(app_savable(m.apps[i]));
        lemma_app_of(m.apps[i]);
    }
    lemma_apps_of(m.apps, m.apps.len() as int);
    assert(items.take(m.apps.len() as int) =~= items);
    assert(m.apps.take(m.apps.len() as int) =~= m.apps);
    assert(session_of(JsonModel::Obj(f)) =~= m);
}

/// The text of a session that was saved gives the session back when it is loaded;
/// where nothing was saved, nothing is loaded.
pub proof fn lemma_saved_session_loads(m: SessionModel)
    requires
        session_savable(m),
    ensures
        loaded(Some(session_text(m))) == Some(m),
        loaded(None) is None,
{
    lemma_session_round_trip(m);
}

/// White space before a field does not matter.
proof fn lemma_object_ws(s: Seq<char>, p: int, q: int, fields: Seq<(Seq<char>, JsonModel)>)
    requires
        0 <= p <= q < s.len(),
        forall|k: int| p <= k < q ==> is_ws(#[trigger] s[k]),
    ensures
        object_at(s, p, fields) == object_at(s, q, fields),
    decreases q - p,
{
    if p < q {
        assert(is_ws(s[p]));
        lemma_object_ws(s, p + 1, q, fields);
        assert(ws_end(s, p) == ws_end(s, p + 1));
    }
}

/// A last field with a line break between it and the brace.
proof fn lemma_last_field(
    s: Seq<char>,
    p: int,
    key: Seq<char>,
    text: Seq<char>,
    m: JsonModel,
    fields: Seq<(Seq<char>, JsonModel)>,
)
    requires
        stands(s, p, field_text(key, text)),
        savable(key),
        p + field_text(key, text).len() + 1 < s.len(),
        text.len() > 0,
        !is_ws(text[0]),
        value_at(s, p + quoted(key).len() + 2) == Ok::<_, crate::json::Fault>(
            (m, p + field_text(key, text).len()),
        ),
        s[p + field_text(key, text).len()] == '\n',
        s[p + field_text(key, text).len() + 1] == '}',
    ensures
        object_at(s, p, fields) == object_at(
            s,
            p + field_text(key, text).len() + 1,
            fields.push((key, m)),
        ),
{
    let f = field_text(key, text);
    let k = quoted(key);
    let r = p + f.len();
    lemma_stands_split(s, p, k + seq![':', ' '], text);
    lemma_stands_split(s, p, k, seq![':', ' ']);
    lemma_quoted_read(s, p, key);
    let c = p + k.len();
    assert(s[c + 0] == ':');
    assert(s[c + 1] == ' ');
    assert(s[c + 2 + 0] == text[0]);
    lemma_no_ws(s, p);
    lemma_no_ws(s, c);
    lemma_skip_ws(s, c + 1, c + 2);
    lemma_no_ws(s, c + 2);
    assert(value_at(s, c + 1) == value_at(s, c + 2));
    lemma_skip_ws(s, r, r + 1);
}

} // verus!

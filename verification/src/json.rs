//! JSON: a value, the parser that reads one, and the text that writes strings.
use vstd::prelude::*;
use vstd::string::*;
use crate::number::{check_number, is_number, whole_number, whole_of};
use crate::text::{
    byte_offset, bytes_before, chars_of, dec, from_scalar, push_dec, same, string_of,
};

verus! {

/// A JSON value. A number is kept as it is written.
#[derive(Debug, PartialEq, Eq)]
pub enum Json {
    Null,
    Bool(bool),
    Num(String),
    Str(String),
    Arr(Vec<Json>),
    Obj(Vec<(String, Json)>),
}

/// A JSON value, as contracts speak of it.
pub enum JsonModel {
    Null,
    Bool(bool),
    Num(Seq<char>),
    Str(Seq<char>),
    Arr(Seq<JsonModel>),
    Obj(Seq<(Seq<char>, JsonModel)>),
}

impl Json {
    pub open spec fn model(self) -> JsonModel
        decreases self,
    {
        match self {
            Json::Null => JsonModel::Null,
            Json::Bool(b) => JsonModel::Bool(b),
            Json::Num(t) => JsonModel::Num(t@),
            Json::Str(t) => JsonModel::Str(t@),
            Json::Arr(v) => JsonModel::Arr(
                Seq::new(
                    v@.len(),
                    |i: int|
                        if 0 <= i < v@.len() {
                            v@[i].model()
                        } else {
                            JsonModel::Null
                        },
                ),
            ),
            Json::Obj(v) => JsonModel::Obj(
                Seq::new(
                    v@.len(),
                    |i: int|
                        if 0 <= i < v@.len() {
                            (v@[i].0@, v@[i].1.model())
                        } else {
                            (Seq::empty(), JsonModel::Null)
                        },
                ),
            ),
        }
    }
}

impl JsonModel {
    /// The value of the first field named `key`.
    pub open spec fn field(self, key: Seq<char>) -> Option<JsonModel> {
        match self {
            JsonModel::Obj(f) => find_field(f, key),
            _ => None,
        }
    }

    pub open spec fn str_value(self) -> Option<Seq<char>> {
        match self {
            JsonModel::Str(t) => Some(t),
            _ => None,
        }
    }

    /// The whole number that a number comes to.
    pub open spec fn whole(self) -> Option<nat> {
        match self {
            JsonModel::Num(t) => if is_number(t) {
                Some(whole_of(t))
            } else {
                None
            },
            _ => None,
        }
    }
}

/// The value of the first field of `f` named `key`.
pub open spec fn find_field(f: Seq<(Seq<char>, JsonModel)>, key: Seq<char>) -> Option<JsonModel>
    decreases f.len(),
{
    if f.len() == 0 {
        None
    } else if f[0].0 == key {
        Some(f[0].1)
    } else {
        find_field(f.drop_first(), key)
    }
}

impl Json {
    /// The value of the first field named `key`, where this is an object that has
    /// one.
    pub fn field<'a>(&'a self, key: &str) -> (r: Option<&'a Json>)
        ensures
            match r {
                Some(v) => self.model().field(key@) == Some(v.model()),
                None => self.model().field(key@) is None,
            },
    {
        match self {
            Json::Obj(fields) => {
                let ghost all = self.model()->Obj_0;
                let mut i: usize = 0;
                assert(all.skip(0) =~= all);
                while i < fields.len()
                    invariant
                        i <= fields@.len(),
                        self.model() == JsonModel::Obj(all),
                        all.len() == fields@.len(),
                        forall|k: int|
                            0 <= k < all.len() ==> #[trigger] all[k] == (
                                fields@[k].0@,
                                fields@[k].1.model(),
                            ),
                        find_field(all, key@) == find_field(all.skip(i as int), key@),
                    decreases fields@.len() - i,
                {
                    let ghost rest = all.skip(i as int);
                    assert(rest[0] == all[i as int]);
                    assert(rest.drop_first() =~= all.skip(i + 1));
                    if same(fields[i].0.as_str(), key) {
                        return Some(&fields[i].1);
                    }
                    i = i + 1;
                }
                assert(all.skip(i as int).len() == 0);
                None
            },
            _ => None,
        }
    }

    pub fn str_value(&self) -> (r: Option<&str>)
        ensures
            match r {
                Some(t) => self.model() == JsonModel::Str(t@),
                None => !(self.model() is Str),
            },
    {
        match self {
            Json::Str(t) => Some(t.as_str()),
            _ => None,
        }
    }

    /// The text of a number.
    pub fn num_text(&self) -> (r: Option<&str>)
        ensures
            match r {
                Some(t) => self.model() == JsonModel::Num(t@),
                None => !(self.model() is Num),
            },
    {
        match self {
            Json::Num(t) => Some(t.as_str()),
            _ => None,
        }
    }

    /// The whole number that a number comes to: cut towards zero, and told apart
    /// from 0 to 65535 only.
    pub fn as_whole(&self) -> (r: Option<u32>)
        ensures
            match r {
                Some(w) => self.model().whole() == Some(w as nat) && w <= 0xffff,
                None => self.model().whole() is None,
            },
    {
        match self {
            Json::Num(t) => {
                let v = chars_of(t.as_str());
                if check_number(&v) {
                    Some(whole_number(&v))
                } else {
                    None
                }
            },
            _ => None,
        }
    }

    pub fn as_bool(&self) -> (r: Option<bool>)
        ensures
            match r {
                Some(b) => self.model() == JsonModel::Bool(b),
                None => !(self.model() is Bool),
            },
    {
        match self {
            Json::Bool(b) => Some(*b),
            _ => None,
        }
    }

    pub fn as_arr(&self) -> (r: Option<&[Json]>)
        ensures
            match r {
                Some(v) => self.model() is Arr && self.model()->Arr_0.len() == v@.len() && forall|
                    i: int,
                |
                    0 <= i < v@.len() ==> #[trigger] v@[i].model() == self.model()->Arr_0[i],
                None => !(self.model() is Arr),
            },
    {
        match self {
            Json::Arr(v) => Some(v.as_slice()),
            _ => None,
        }
    }
}

// ── The grammar ──────────────────────────────────────────────────────────────

/// Why a text is no JSON: what is wrong, and after how many characters; where
/// `past`, one byte further on.
pub struct Fault {
    pub what: Seq<char>,
    pub at: int,
    pub past: bool,
}

/// What is read from a place on: a value and the place after it, or what is wrong.
pub type Read<T> = Result<(T, int), Fault>;

pub open spec fn wrong<T>(what: Seq<char>, at: int) -> Read<T> {
    Err(Fault { what, at, past: false })
}

/// Past the first byte of the character at `at`, where there is one.
pub open spec fn wrong_past<T>(s: Seq<char>, what: Seq<char>, at: int) -> Read<T> {
    Err(Fault { what, at, past: at < s.len() })
}

pub open spec fn is_ws(c: char) -> bool {
    c == ' ' || c == '\t' || c == '\n' || c == '\r'
}

/// The end of the white space at `p`.
pub open spec fn ws_end(s: Seq<char>, p: int) -> int
    decreases s.len() - p,
{
    if 0 <= p < s.len() && is_ws(s[p]) {
        ws_end(s, p + 1)
    } else {
        p
    }
}

pub proof fn lemma_ws_end(s: Seq<char>, p: int)
    ensures
        p <= ws_end(s, p),
        0 <= p <= s.len() ==> ws_end(s, p) <= s.len(),
        0 <= p && ws_end(s, p) < s.len() ==> !is_ws(s[ws_end(s, p)]),
    decreases s.len() - p,
{
    if 0 <= p < s.len() && is_ws(s[p]) {
        lemma_ws_end(s, p + 1);
    }
}

/// The value of a hexadecimal digit.
pub open spec fn hex_digit(c: char) -> Option<u32> {
    if '0' <= c <= '9' {
        Some((c as u32 - 48) as u32)
    } else if 'a' <= c <= 'f' {
        Some((c as u32 - 87) as u32)
    } else if 'A' <= c <= 'F' {
        Some((c as u32 - 55) as u32)
    } else {
        None
    }
}

/// `n` more hexadecimal digits at `p`, after the value `so_far`.
pub open spec fn hex_at(s: Seq<char>, p: int, n: nat, so_far: u32) -> Read<u32>
    decreases n,
{
    if n == 0 {
        Ok((so_far, p))
    } else if p >= s.len() {
        wrong("unterminated unicode escape"@, p)
    } else {
        match hex_digit(s[p]) {
            Some(d) => hex_at(s, p + 1, (n - 1) as nat, (so_far * 16 + d) as u32),
            None => wrong_past(s, "invalid hex digit"@, p),
        }
    }
}

/// The character of an escape `u` whose digits start at `p`.
pub open spec fn unicode_at(s: Seq<char>, p: int) -> Read<char> {
    match hex_at(s, p, 4, 0) {
        Err(e) => Err(e),
        Ok((cp, q)) => if 0xd800 <= cp <= 0xdbff {
            if q >= s.len() || s[q] != '\\' {
                wrong_past(s, "expected low surrogate"@, q)
            } else if q + 1 >= s.len() || s[q + 1] != 'u' {
                wrong_past(s, "expected low surrogate"@, q + 1)
            } else {
                match hex_at(s, q + 2, 4, 0) {
                    Err(e) => Err(e),
                    Ok((low, r)) => match surrogate_char(cp, low) {
                        Some(c) => Ok((c, r)),
                        None => wrong("invalid surrogate pair"@, r),
                    },
                }
            }
        } else {
            match from_scalar(cp) {
                Some(c) => Ok((c, q)),
                None => wrong("invalid unicode escape"@, q),
            }
        },
    }
}

/// The character of two surrogates.
pub open spec fn surrogate_char(high: u32, low: u32) -> Option<char> {
    if low < 0xdc00 {
        None
    } else {
        from_scalar((0x10000 + (high - 0xd800) * 1024 + (low - 0xdc00)) as u32)
    }
}

/// The character of an escape with one letter.
pub open spec fn simple_escape(c: char) -> Option<char> {
    if c == '"' || c == '\\' || c == '/' {
        Some(c)
    } else if c == 'b' {
        Some('\u{8}')
    } else if c == 'f' {
        Some('\u{c}')
    } else if c == 'n' {
        Some('\n')
    } else if c == 'r' {
        Some('\r')
    } else if c == 't' {
        Some('\t')
    } else {
        None
    }
}

/// The characters that a string may not hold as they are.
pub open spec fn is_control(c: char) -> bool {
    c as u32 <= 0x1f
}

/// The rest of a string at `p`, after the characters `out`.
pub open spec fn chars_at(s: Seq<char>, p: int, out: Seq<char>) -> Read<Seq<char>>
    decreases s.len() - p,
{
    if p < 0 || p >= s.len() {
        wrong("unterminated string"@, p)
    } else if s[p] == '"' {
        Ok((out, p + 1))
    } else if s[p] == '\\' {
        if p + 1 >= s.len() {
            wrong("unterminated escape"@, p + 1)
        } else if s[p + 1] == 'u' {
            match unicode_at(s, p + 2) {
                Err(e) => Err(e),
                Ok((c, q)) => if p < q <= s.len() {
                    chars_at(s, q, out.push(c))
                } else {
                    wrong(Seq::empty(), q)
                },
            }
        } else {
            match simple_escape(s[p + 1]) {
                Some(c) => chars_at(s, p + 2, out.push(c)),
                None => wrong_past(s, "invalid escape"@, p + 1),
            }
        }
    } else if is_control(s[p]) {
        wrong("control char in string"@, p + 1)
    } else {
        chars_at(s, p + 1, out.push(s[p]))
    }
}

pub open spec fn is_number_char(c: char) -> bool {
    '0' <= c <= '9' || c == '-' || c == '+' || c == '.' || c == 'e' || c == 'E'
}

/// The end of the characters at `p` that a number is made of.
pub open spec fn number_end(s: Seq<char>, p: int) -> int
    decreases s.len() - p,
{
    if 0 <= p < s.len() && is_number_char(s[p]) {
        number_end(s, p + 1)
    } else {
        p
    }
}

pub open spec fn number_at(s: Seq<char>, p: int) -> Read<JsonModel> {
    let q = number_end(s, p);
    let t = s.subrange(p, q);
    if is_number(t) {
        Ok((JsonModel::Num(t), q))
    } else {
        wrong("invalid number"@, q)
    }
}

/// The word `word` at `p`, which stands for `value`.
pub open spec fn literal_at(
    s: Seq<char>,
    p: int,
    word: Seq<char>,
    value: JsonModel,
) -> Read<JsonModel> {
    if p + word.len() <= s.len() && s.subrange(p, p + word.len()) == word {
        Ok((value, p + word.len()))
    } else {
        wrong("invalid literal"@, p)
    }
}

/// A value at `from`, with white space before it.
pub open spec fn value_at(s: Seq<char>, from: int) -> Read<JsonModel>
    decreases s.len() - from, 0nat,
{
    let p = ws_end(s, from);
    proof {
        lemma_ws_end(s, from);
    }
    if p < 0 || p >= s.len() {
        wrong("unexpected token"@, p)
    } else if s[p] == '{' {
        object_at(s, p + 1, Seq::empty())
    } else if s[p] == '[' {
        array_at(s, p + 1, Seq::empty())
    } else if s[p] == '"' {
        match chars_at(s, p + 1, Seq::empty()) {
            Ok((t, q)) => Ok((JsonModel::Str(t), q)),
            Err(e) => Err(e),
        }
    } else if s[p] == 't' {
        literal_at(s, p, "true"@, JsonModel::Bool(true))
    } else if s[p] == 'f' {
        literal_at(s, p, "false"@, JsonModel::Bool(false))
    } else if s[p] == 'n' {
        literal_at(s, p, "null"@, JsonModel::Null)
    } else if s[p] == '-' || '0' <= s[p] <= '9' {
        number_at(s, p)
    } else {
        wrong("unexpected token"@, p)
    }
}

/// The rest of an array at `from`, after `items`. A comma may stand behind the
/// last item.
pub open spec fn array_at(s: Seq<char>, from: int, items: Seq<JsonModel>) -> Read<JsonModel>
    decreases s.len() - from, 1nat,
{
    let p = ws_end(s, from);
    proof {
        lemma_ws_end(s, from);
    }
    if p < 0 || p >= s.len() {
        wrong("unterminated array"@, p)
    } else if s[p] == ']' {
        Ok((JsonModel::Arr(items), p + 1))
    } else {
        match value_at(s, p) {
            Err(e) => Err(e),
            Ok((v, r)) => {
                let q = ws_end(s, r);
                proof {
                    lemma_ws_end(s, r);
                }
                if r <= p || r > s.len() {
                    wrong(Seq::empty(), r)
                } else if q < s.len() && s[q] == ',' {
                    array_at(s, q + 1, items.push(v))
                } else if q < s.len() && s[q] == ']' {
                    array_at(s, q, items.push(v))
                } else {
                    wrong("expected ',' or ']'"@, q)
                }
            },
        }
    }
}

/// The rest of an object at `from`, after `fields`. A comma may stand behind the
/// last field.
pub open spec fn object_at(
    s: Seq<char>,
    from: int,
    fields: Seq<(Seq<char>, JsonModel)>,
) -> Read<JsonModel>
    decreases s.len() - from, 1nat,
{
    let p = ws_end(s, from);
    proof {
        lemma_ws_end(s, from);
    }
    if p < 0 || p >= s.len() {
        wrong("unterminated object"@, p)
    } else if s[p] == '}' {
        Ok((JsonModel::Obj(fields), p + 1))
    } else if s[p] != '"' {
        wrong("expected string key"@, p)
    } else {
        match chars_at(s, p + 1, Seq::empty()) {
            Err(e) => Err(e),
            Ok((key, k)) => {
                let c = ws_end(s, k);
                proof {
                    lemma_ws_end(s, k);
                }
                if k <= p || k > s.len() {
                    wrong(Seq::empty(), k)
                } else if c >= s.len() || s[c] != ':' {
                    wrong_past(s, "expected ':'"@, c)
                } else {
                    match value_at(s, c + 1) {
                        Err(e) => Err(e),
                        Ok((v, r)) => {
                            let q = ws_end(s, r);
                            proof {
                                lemma_ws_end(s, r);
                            }
                            if r <= p || r > s.len() {
                                wrong(Seq::empty(), r)
                            } else if q < s.len() && s[q] == ',' {
                                object_at(s, q + 1, fields.push((key, v)))
                            } else if q < s.len() && s[q] == '}' {
                                object_at(s, q, fields.push((key, v)))
                            } else {
                                wrong("expected ',' or '}'"@, q)
                            }
                        },
                    }
                }
            },
        }
    }
}

/// A whole document: one value and nothing behind it but white space.
pub open spec fn document(s: Seq<char>) -> Result<JsonModel, Fault> {
    match value_at(s, 0) {
        Err(e) => Err(e),
        Ok((v, p)) => {
            let q = ws_end(s, p);
            if q == s.len() {
                Ok(v)
            } else {
                Err(Fault { what: "trailing data after JSON value"@, at: q, past: false })
            }
        },
    }
}

// ── Progress ─────────────────────────────────────────────────────────────────

pub proof fn lemma_hex_at(s: Seq<char>, p: int, n: nat, v: u32)
    requires
        0 <= p,
    ensures
        hex_at(s, p, n, v) matches Ok((w, q)) ==> q == p + n && (n > 0 ==> q <= s.len()),
        hex_at(s, p, n, v) matches Err(e) ==> p <= e.at <= p + n && (p <= s.len() ==> e.at
            <= s.len()),
    decreases n,
{
    if n > 0 && p < s.len() {
        match hex_digit(s[p]) {
            Some(d) => lemma_hex_at(s, p + 1, (n - 1) as nat, (v * 16 + d) as u32),
            None => {},
        }
    }
}

pub proof fn lemma_unicode_at(s: Seq<char>, p: int)
    requires
        0 <= p <= s.len(),
    ensures
        unicode_at(s, p) matches Ok((c, q)) ==> p < q <= s.len(),
        unicode_at(s, p) matches Err(e) ==> 0 <= e.at <= s.len(),
{
    lemma_hex_at(s, p, 4, 0);
    match hex_at(s, p, 4, 0) {
        Ok((cp, q)) => {
            if q + 2 <= s.len() {
                lemma_hex_at(s, q + 2, 4, 0);
            }
        },
        Err(e) => {},
    }
}

/// A string is read to a place further on.
pub proof fn lemma_chars_at(s: Seq<char>, p: int, out: Seq<char>)
    requires
        0 <= p <= s.len(),
    ensures
        chars_at(s, p, out) matches Ok((t, q)) ==> p < q <= s.len(),
        chars_at(s, p, out) matches Err(e) ==> 0 <= e.at <= s.len(),
    decreases s.len() - p,
{
    if p < s.len() && s[p] != '"' {
        if s[p] == '\\' {
            if p + 1 < s.len() {
                if s[p + 1] == 'u' {
                    lemma_unicode_at(s, p + 2);
                    match unicode_at(s, p + 2) {
                        Ok((c, q)) => lemma_chars_at(s, q, out.push(c)),
                        Err(e) => {},
                    }
                } else {
                    match simple_escape(s[p + 1]) {
                        Some(c) => lemma_chars_at(s, p + 2, out.push(c)),
                        None => {},
                    }
                }
            }
        } else if !is_control(s[p]) {
            lemma_chars_at(s, p + 1, out.push(s[p]));
        }
    }
}

proof fn lemma_number_end(s: Seq<char>, p: int)
    requires
        0 <= p <= s.len(),
    ensures
        p <= number_end(s, p) <= s.len(),
    decreases s.len() - p,
{
    if p < s.len() && is_number_char(s[p]) {
        lemma_number_end(s, p + 1);
    }
}

/// A value is read to a place further on.
pub proof fn lemma_value_at(s: Seq<char>, from: int)
    requires
        0 <= from <= s.len(),
    ensures
        value_at(s, from) matches Ok((v, q)) ==> from < q <= s.len(),
        value_at(s, from) matches Err(e) ==> 0 <= e.at <= s.len(),
    decreases s.len() - from, 0nat,
{
    let p = ws_end(s, from);
    lemma_ws_end(s, from);
    if p < s.len() {
        reveal_strlit("true");
        reveal_strlit("false");
        reveal_strlit("null");
        if s[p] == '{' {
            lemma_object_at(s, p + 1, Seq::empty());
        } else if s[p] == '[' {
            lemma_array_at(s, p + 1, Seq::empty());
        } else if s[p] == '"' {
            lemma_chars_at(s, p + 1, Seq::empty());
        } else if s[p] == '-' || '0' <= s[p] <= '9' {
            lemma_number_end(s, p + 1);
            assert(number_end(s, p) == number_end(s, p + 1));
        }
    }
}

pub proof fn lemma_array_at(s: Seq<char>, from: int, items: Seq<JsonModel>)
    requires
        0 <= from <= s.len(),
    ensures
        array_at(s, from, items) matches Ok((v, q)) ==> from < q <= s.len(),
        array_at(s, from, items) matches Err(e) ==> 0 <= e.at <= s.len(),
    decreases s.len() - from, 1nat,
{
    let p = ws_end(s, from);
    lemma_ws_end(s, from);
    if p < s.len() && s[p] != ']' {
        lemma_value_at(s, p);
        match value_at(s, p) {
            Ok((v, r)) => {
                let q = ws_end(s, r);
                lemma_ws_end(s, r);
                if q < s.len() && s[q] == ',' {
                    lemma_array_at(s, q + 1, items.push(v));
                } else if q < s.len() && s[q] == ']' {
                    lemma_array_at(s, q, items.push(v));
                }
            },
            Err(e) => {},
        }
    }
}

pub proof fn lemma_object_at(s: Seq<char>, from: int, fields: Seq<(Seq<char>, JsonModel)>)
    requires
        0 <= from <= s.len(),
    ensures
        object_at(s, from, fields) matches Ok((v, q)) ==> from < q <= s.len(),
        object_at(s, from, fields) matches Err(e) ==> 0 <= e.at <= s.len(),
    decreases s.len() - from, 1nat,
{
    let p = ws_end(s, from);
    lemma_ws_end(s, from);
    if p < s.len() && s[p] == '"' {
        lemma_chars_at(s, p + 1, Seq::empty());
        match chars_at(s, p + 1, Seq::empty()) {
            Ok((key, k)) => {
                let c = ws_end(s, k);
                lemma_ws_end(s, k);
                if c < s.len() && s[c] == ':' {
                    lemma_value_at(s, c + 1);
                    match value_at(s, c + 1) {
                        Ok((v, r)) => {
                            let q = ws_end(s, r);
                            lemma_ws_end(s, r);
                            if q < s.len() && s[q] == ',' {
                                lemma_object_at(s, q + 1, fields.push((key, v)));
                            } else if q < s.len() && s[q] == '}' {
                                lemma_object_at(s, q, fields.push((key, v)));
                            }
                        },
                        Err(e) => {},
                    }
                }
            },
            Err(e) => {},
        }
    }
}

// ── The parser ───────────────────────────────────────────────────────────────

/// The byte at which a fault is.
pub open spec fn fault_byte(s: Seq<char>, e: Fault) -> nat {
    if e.past {
        byte_offset(s, e.at) + 1
    } else {
        byte_offset(s, e.at)
    }
}

/// The message for a fault: what is wrong, and at which byte.
pub open spec fn fault_text(s: Seq<char>, e: Fault) -> Seq<char> {
    e.what + " at byte "@ + dec(fault_byte(s, e))
}

/// Whether an executable result is what the grammar says.
pub open spec fn agrees(s: Seq<char>, r: Result<Json, String>, at: int, m: Read<JsonModel>) -> bool {
    match (r, m) {
        (Ok(v), Ok((w, q))) => v.model() == w && at == q,
        (Err(t), Err(e)) => t@ == fault_text(s, e),
        _ => false,
    }
}

/// Reads JSON from a text, `pos` characters into it.
pub struct JsonParser {
    pub src: Vec<char>,
    pub pos: usize,
}

impl JsonParser {
    pub open spec fn wf(&self) -> bool {
        self.pos <= self.src@.len()
    }

    pub fn new(source: &str) -> (p: JsonParser)
        ensures
            p.src@ == source@,
            p.pos == 0,
            p.wf(),
    {
        JsonParser { src: chars_of(source), pos: 0 }
    }

    /// The message that says what is wrong, and at which byte of the text.
    pub fn error(&self, message: &str) -> (t: String)
        requires
            self.wf(),
        ensures
            t@ == fault_text(self.src@, Fault { what: message@, at: self.pos as int, past: false }),
    {
        let mut t = String::new();
        t.append(message);
        t.append(" at byte ");
        let n: u128 = bytes_before(&self.src, self.pos);
        push_dec(&mut t, n);
        assert(t@ =~= message@ + " at byte "@ + dec(n as nat));
        t
    }

    /// The message for a fault that is seen once the first byte of the character at
    /// the place is read, where there is one.
    fn error_past(&self, message: &str) -> (t: String)
        requires
            self.wf(),
        ensures
            t@ == fault_text(
                self.src@,
                Fault {
                    what: message@,
                    at: self.pos as int,
                    past: self.pos < self.src@.len(),
                },
            ),
    {
        let mut t = String::new();
        t.append(message);
        t.append(" at byte ");
        let before: u128 = bytes_before(&self.src, self.pos);
        let n: u128 = if self.pos < self.src.len() {
            before + 1
        } else {
            before
        };
        push_dec(&mut t, n);
        assert(t@ =~= message@ + " at byte "@ + dec(n as nat));
        t
    }

    fn peek(&self) -> (c: Option<char>)
        requires
            self.wf(),
        ensures
            c == (if self.pos < self.src@.len() {
                Some(self.src@[self.pos as int])
            } else {
                None
            }),
    {
        if self.pos < self.src.len() {
            Some(self.src[self.pos])
        } else {
            None
        }
    }

    /// Goes past one character.
    fn bump(&mut self)
        requires
            old(self).pos < old(self).src@.len(),
        ensures
            final(self).src == old(self).src,
            final(self).pos == old(self).pos + 1,
            final(self).wf(),
    {
        if self.pos < self.src.len() {
            self.pos = self.pos + 1;
        }
    }
}

impl JsonParser {
    /// Goes past white space.
    pub fn skip_ws(&mut self)
        requires
            old(self).wf(),
        ensures
            final(self).src == old(self).src,
            final(self).pos == ws_end(old(self).src@, old(self).pos as int),
            final(self).wf(),
    {
        while self.pos < self.src.len() && (self.src[self.pos] == ' ' || self.src[self.pos] == '\t'
            || self.src[self.pos] == '\n' || self.src[self.pos] == '\r')
            invariant
                self.wf(),
                self.src == old(self).src,
                ws_end(self.src@, self.pos as int) == ws_end(self.src@, old(self).pos as int),
            decreases self.src@.len() - self.pos,
        {
            self.pos = self.pos + 1;
        }
    }

    /// Reads one value, with white space before it.
    pub fn parse_value(&mut self) -> (r: Result<Json, String>)
        requires
            old(self).wf(),
        ensures
            final(self).src == old(self).src,
            final(self).wf(),
            agrees(
                old(self).src@,
                r,
                final(self).pos as int,
                value_at(old(self).src@, old(self).pos as int),
            ),
        decreases old(self).src@.len() - old(self).pos, 1nat,
    {
        let ghost s = self.src@;
        let ghost from = self.pos as int;
        proof {
            lemma_ws_end(s, from);
            lemma_value_at(s, from);
        }
        self.skip_ws();
        let ghost p = self.pos as int;
        match self.peek() {
            Some('{') => self.parse_object(),
            Some('[') => self.parse_array(),
            Some('"') => match self.parse_string() {
                Ok(t) => Ok(Json::Str(t)),
                Err(e) => Err(e),
            },
            Some('t') => self.parse_literal("true", Json::Bool(true)),
            Some('f') => self.parse_literal("false", Json::Bool(false)),
            Some('n') => self.parse_literal("null", Json::Null),
            Some(c) => {
                if c == '-' || ('0' <= c && c <= '9') {
                    self.parse_number()
                } else {
                    Err(self.error("unexpected token"))
                }
            },
            None => Err(self.error("unexpected token")),
        }
    }

    fn parse_literal(&mut self, word: &str, value: Json) -> (r: Result<Json, String>)
        requires
            old(self).wf(),
        ensures
            final(self).src == old(self).src,
            final(self).wf(),
            agrees(
                old(self).src@,
                r,
                final(self).pos as int,
                literal_at(old(self).src@, old(self).pos as int, word@, value.model()),
            ),
    {
        let w = chars_of(word);
        let ghost s = self.src@;
        let p: usize = self.pos;
        let n: usize = self.src.len();
        if w.len() <= n - p {
            let mut i: usize = 0;
            while i < w.len()
                invariant
                    self.wf(),
                    self.src@ == s,
                    self.pos == p,
                    self.src == old(self).src,
                    old(self).pos == p,
                    w@ == word@,
                    n == s.len(),
                    i <= w@.len() <= n - p,
                    forall|k: int| 0 <= k < i ==> s[p + k] == w@[k],
                decreases w@.len() - i,
            {
                if self.src[p + i] != w[i] {
                    assert(s.subrange(p as int, p + w@.len())[i as int] != w@[i as int]);
                    return Err(self.error("invalid literal"));
                }
                i = i + 1;
            }
            assert(s.subrange(p as int, p + w@.len()) =~= word@);
            self.pos = p + w.len();
            Ok(value)
        } else {
            Err(self.error("invalid literal"))
        }
    }

    fn parse_number(&mut self) -> (r: Result<Json, String>)
        requires
            old(self).wf(),
        ensures
            final(self).src == old(self).src,
            final(self).wf(),
            agrees(
                old(self).src@,
                r,
                final(self).pos as int,
                number_at(old(self).src@, old(self).pos as int),
            ),
    {
        let start: usize = self.pos;
        while self.pos < self.src.len() && number_char(self.src[self.pos])
            invariant
                self.wf(),
                start <= self.pos,
                self.src == old(self).src,
                number_end(self.src@, self.pos as int) == number_end(self.src@, start as int),
            decreases self.src@.len() - self.pos,
        {
            self.pos = self.pos + 1;
        }
        let text = string_of(&self.src, start, self.pos);
        let digits = chars_of(text.as_str());
        if check_number(&digits) {
            Ok(Json::Num(text))
        } else {
            Err(self.error("invalid number"))
        }
    }

    fn parse_array(&mut self) -> (r: Result<Json, String>)
        requires
            old(self).wf(),
            old(self).pos < old(self).src@.len(),
        ensures
            final(self).src == old(self).src,
            final(self).wf(),
            agrees(
                old(self).src@,
                r,
                final(self).pos as int,
                array_at(old(self).src@, old(self).pos + 1, Seq::empty()),
            ),
        decreases old(self).src@.len() - old(self).pos, 0nat,
    {
        let ghost s = self.src@;
        let ghost start = self.pos as int;
        self.bump();
        let mut items: Vec<Json> = Vec::new();
        let ghost mut models: Seq<JsonModel> = Seq::empty();
        loop
            invariant
                self.wf(),
                self.src@ == s,
                self.src == old(self).src,
                start == old(self).pos,
                start < self.pos,
                items@.len() == models.len(),
                forall|i: int| 0 <= i < models.len() ==> #[trigger] models[i] == items@[i].model(),
                array_at(s, self.pos as int, models) == array_at(s, start + 1, Seq::empty()),
            decreases s.len() - self.pos,
        {
            let ghost here = self.pos as int;
            proof {
                lemma_ws_end(s, here);
                lemma_array_at(s, here, models);
            }
            self.skip_ws();
            let ghost p = self.pos as int;
            match self.peek() {
                None => {
                    return Err(self.error("unterminated array"));
                },
                Some(']') => {
                    self.bump();
                    proof {
                        let v = Json::Arr(items);
                        assert(v.model()->Arr_0 =~= models);
                    }
                    return Ok(Json::Arr(items));
                },
                Some(_) => {
                    let value = match self.parse_value() {
                        Ok(v) => v,
                        Err(e) => {
                            return Err(e);
                        },
                    };
                    proof {
                        lemma_value_at(s, p);
                        lemma_ws_end(s, self.pos as int);
                    }
                    let ghost m = value.model();
                    items.push(value);
                    self.skip_ws();
                    proof {
                        models = models.push(m);
                        assert forall|i: int| 0 <= i < models.len() implies #[trigger] models[i]
                            == items@[i].model() by {}
                    }
                    match self.peek() {
                        Some(',') => {
                            self.bump();
                        },
                        Some(']') => {},
                        _ => {
                            return Err(self.error("expected ',' or ']'"));
                        },
                    }
                },
            }
        }
    }

    fn parse_object(&mut self) -> (r: Result<Json, String>)
        requires
            old(self).wf(),
            old(self).pos < old(self).src@.len(),
        ensures
            final(self).src == old(self).src,
            final(self).wf(),
            agrees(
                old(self).src@,
                r,
                final(self).pos as int,
                object_at(old(self).src@, old(self).pos + 1, Seq::empty()),
            ),
        decreases old(self).src@.len() - old(self).pos, 0nat,
    {
        let ghost s = self.src@;
        let ghost start = self.pos as int;
        self.bump();
        let mut fields: Vec<(String, Json)> = Vec::new();
        let ghost mut models: Seq<(Seq<char>, JsonModel)> = Seq::empty();
        loop
            invariant
                self.wf(),
                self.src@ == s,
                self.src == old(self).src,
                start == old(self).pos,
                start < self.pos,
                fields@.len() == models.len(),
                forall|i: int|
                    0 <= i < models.len() ==> #[trigger] models[i] == (
                        fields@[i].0@,
                        fields@[i].1.model(),
                    ),
                object_at(s, self.pos as int, models) == object_at(s, start + 1, Seq::empty()),
            decreases s.len() - self.pos,
        {
            let ghost here = self.pos as int;
            proof {
                lemma_ws_end(s, here);
                lemma_object_at(s, here, models);
            }
            self.skip_ws();
            let ghost p = self.pos as int;
            match self.peek() {
                None => {
                    return Err(self.error("unterminated object"));
                },
                Some('}') => {
                    self.bump();
                    proof {
                        let v = Json::Obj(fields);
                        assert(v.model()->Obj_0 =~= models);
                    }
                    return Ok(Json::Obj(fields));
                },
                Some('"') => {
                    proof {
                        lemma_chars_at(s, p + 1, Seq::empty());
                    }
                    let key = match self.parse_string() {
                        Ok(t) => t,
                        Err(e) => {
                            return Err(e);
                        },
                    };
                    let ghost k = self.pos as int;
                    proof {
                        lemma_ws_end(s, k);
                    }
                    self.skip_ws();
                    let ghost c = self.pos as int;
                    let colon = match self.peek() {
                        Some(':') => true,
                        _ => false,
                    };
                    if !colon {
                        return Err(self.error_past("expected ':'"));
                    }
                    self.bump();
                    proof {
                        lemma_value_at(s, c + 1);
                    }
                    let value = match self.parse_value() {
                        Ok(v) => v,
                        Err(e) => {
                            return Err(e);
                        },
                    };
                    proof {
                        lemma_ws_end(s, self.pos as int);
                    }
                    let ghost m = (key@, value.model());
                    fields.push((key, value));
                    self.skip_ws();
                    proof {
                        models = models.push(m);
                        assert forall|i: int| 0 <= i < models.len() implies #[trigger] models[i]
                            == (fields@[i].0@, fields@[i].1.model()) by {}
                    }
                    match self.peek() {
                        Some(',') => {
                            self.bump();
                        },
                        Some('}') => {},
                        _ => {
                            return Err(self.error("expected ',' or '}'"));
                        },
                    }
                },
                Some(_) => {
                    return Err(self.error("expected string key"));
                },
            }
        }
    }

    /// Reads a string; the opening quote is at the place.
    fn parse_string(&mut self) -> (r: Result<String, String>)
        requires
            old(self).wf(),
            old(self).pos < old(self).src@.len(),
        ensures
            final(self).src == old(self).src,
            final(self).wf(),
            match (r, chars_at(old(self).src@, old(self).pos + 1, Seq::empty())) {
                (Ok(t), Ok((u, q))) => t@ == u && final(self).pos == q,
                (Err(t), Err(e)) => t@ == fault_text(old(self).src@, e),
                _ => false,
            },
    {
        let ghost s = self.src@;
        let ghost start = self.pos as int;
        self.bump();
        let mut out = String::new();
        loop
            invariant
                self.wf(),
                self.src@ == s,
                self.src == old(self).src,
                start == old(self).pos,
                chars_at(s, self.pos as int, out@) == chars_at(s, start + 1, Seq::empty()),
            decreases s.len() - self.pos,
        {
            let ghost p = self.pos as int;
            match self.peek() {
                None => {
                    return Err(self.error("unterminated string"));
                },
                Some('"') => {
                    self.bump();
                    return Ok(out);
                },
                Some('\\') => {
                    self.bump();
                    match self.peek() {
                        None => {
                            return Err(self.error("unterminated escape"));
                        },
                        Some('u') => {
                            self.bump();
                            proof {
                                lemma_unicode_at(s, p + 2);
                            }
                            match self.parse_unicode() {
                                Ok(c) => out.push(c),
                                Err(e) => {
                                    return Err(e);
                                },
                            }
                        },
                        Some(c) => {
                            match find_escape(c) {
                                Some(d) => out.push(d),
                                None => {
                                    return Err(self.error_past("invalid escape"));
                                },
                            }
                            self.bump();
                        },
                    }
                },
                Some(c) => {
                    self.bump();
                    if c as u32 <= 0x1f {
                        return Err(self.error("control char in string"));
                    }
                    out.push(c);
                },
            }
        }
    }

    /// Reads the digits of an escape `u`, and those of a second one where it takes
    /// two.
    fn parse_unicode(&mut self) -> (r: Result<char, String>)
        requires
            old(self).wf(),
        ensures
            final(self).src == old(self).src,
            final(self).wf(),
            match (r, unicode_at(old(self).src@, old(self).pos as int)) {
                (Ok(c), Ok((d, q))) => c == d && final(self).pos == q,
                (Err(t), Err(e)) => t@ == fault_text(old(self).src@, e),
                _ => false,
            },
    {
        let ghost s = self.src@;
        let ghost p = self.pos as int;
        proof {
            lemma_hex_at(s, p, 4, 0);
        }
        let cp: u32 = match self.parse_hex4() {
            Ok(v) => v,
            Err(e) => {
                return Err(e);
            },
        };
        if 0xd800 <= cp && cp <= 0xdbff {
            let slash = match self.peek() {
                Some('\\') => true,
                _ => false,
            };
            if !slash {
                return Err(self.error_past("expected low surrogate"));
            }
            self.bump();
            let letter = match self.peek() {
                Some('u') => true,
                _ => false,
            };
            if !letter {
                return Err(self.error_past("expected low surrogate"));
            }
            self.bump();
            let low: u32 = match self.parse_hex4() {
                Ok(v) => v,
                Err(e) => {
                    return Err(e);
                },
            };
            if low < 0xdc00 {
                return Err(self.error("invalid surrogate pair"));
            }
            match char::from_u32(0x10000 + (cp - 0xd800) * 1024 + (low - 0xdc00)) {
                Some(c) => Ok(c),
                None => Err(self.error("invalid surrogate pair")),
            }
        } else {
            match char::from_u32(cp) {
                Some(c) => Ok(c),
                None => Err(self.error("invalid unicode escape")),
            }
        }
    }

    fn parse_hex4(&mut self) -> (r: Result<u32, String>)
        requires
            old(self).wf(),
        ensures
            final(self).src == old(self).src,
            final(self).wf(),
            match (r, hex_at(old(self).src@, old(self).pos as int, 4, 0)) {
                (Ok(v), Ok((w, q))) => v == w && v <= 0xffff && final(self).pos == q,
                (Err(t), Err(e)) => t@ == fault_text(old(self).src@, e),
                _ => false,
            },
    {
        let ghost s = self.src@;
        let mut v: u32 = 0;
        let mut n: u8 = 0;
        while n < 4
            invariant
                n <= 4,
                self.wf(),
                self.src@ == s,
                self.src == old(self).src,
                v < (if n == 0 {
                    1
                } else if n == 1 {
                    16
                } else if n == 2 {
                    256
                } else if n == 3 {
                    4096
                } else {
                    65536int
                }),
                hex_at(s, self.pos as int, (4 - n) as nat, v) == hex_at(
                    s,
                    old(self).pos as int,
                    4,
                    0,
                ),
            decreases 4 - n,
        {
            match self.peek() {
                None => {
                    return Err(self.error("unterminated unicode escape"));
                },
                Some(c) => {
                    match find_hex_digit(c) {
                        Some(d) => {
                            v = v * 16 + d;
                        },
                        None => {
                            return Err(self.error_past("invalid hex digit"));
                        },
                    }
                    self.bump();
                },
            }
            n = n + 1;
        }
        Ok(v)
    }
}

fn number_char(c: char) -> (r: bool)
    ensures
        r == is_number_char(c),
{
    ('0' <= c && c <= '9') || c == '-' || c == '+' || c == '.' || c == 'e' || c == 'E'
}

fn find_hex_digit(c: char) -> (d: Option<u32>)
    ensures
        d == hex_digit(c),
        d matches Some(v) ==> v < 16,
{
    if '0' <= c && c <= '9' {
        Some(c as u32 - 48)
    } else if 'a' <= c && c <= 'f' {
        Some(c as u32 - 87)
    } else if 'A' <= c && c <= 'F' {
        Some(c as u32 - 55)
    } else {
        None
    }
}

fn find_escape(c: char) -> (d: Option<char>)
    ensures
        d == simple_escape(c),
{
    match c {
        '"' => Some('"'),
        '\\' => Some('\\'),
        '/' => Some('/'),
        'b' => Some('\u{8}'),
        'f' => Some('\u{c}'),
        'n' => Some('\n'),
        'r' => Some('\r'),
        't' => Some('\t'),
        _ => None,
    }
}

/// Reads a whole document; nothing may stand behind the value.
pub fn parse(source: &str) -> (r: Result<Json, String>)
    ensures
        match (r, document(source@)) {
            (Ok(v), Ok(m)) => v.model() == m,
            (Err(t), Err(e)) => t@ == fault_text(source@, e),
            _ => false,
        },
{
    let mut parser = JsonParser::new(source);
    proof {
        lemma_value_at(source@, 0);
    }
    let value = match parser.parse_value() {
        Ok(v) => v,
        Err(e) => {
            return Err(e);
        },
    };
    parser.skip_ws();
    if parser.pos != parser.src.len() {
        return Err(parser.error("trailing data after JSON value"));
    }
    Ok(value)
}

} // verus!

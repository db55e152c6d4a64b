//! Text as a sequence of characters: the parts of std's `String`, `str` and
//! `char` that the library builds on.
use vstd::prelude::*;
use vstd::string::*;
use vstd::utf8::{char_is_scalar, decode_utf8, encode_scalar, encode_utf8, valid_utf8};

verus! {

/// `String::push` appends one character.
pub assume_specification[ String::push ](s: &mut String, ch: char)
    ensures
        final(s)@ == old(s)@.push(ch),
;

/// `char::from_u32` gives the character of a Unicode scalar value, and nothing
/// for any other number.
pub assume_specification[ char::from_u32 ](i: u32) -> (res: Option<char>)
    ensures
        res == from_scalar(i),
;

/// The character numbered `i`, where there is one.
pub open spec fn from_scalar(i: u32) -> Option<char> {
    if i <= 0xd7ff || 0xe000 <= i <= 0x10ffff {
        Some(i as char)
    } else {
        None
    }
}

/// The characters of `s`.
pub fn chars_of(s: &str) -> (v: Vec<char>)
    ensures
        v@ == s@,
{
    let mut v: Vec<char> = Vec::new();
    for c in it: s.chars()
        invariant
            it.seq() == s@,
            v@ == s@.take(it.index()),
    {
        v.push(c);
        assert(s@.take(it.index() + 1) =~= s@.take(it.index()).push(c));
    }
    assert(s@.take(s@.len() as int) =~= s@);
    v
}

/// The string made of `v[from..to]`.
pub fn string_of(v: &[char], from: usize, to: usize) -> (s: String)
    requires
        from <= to <= v@.len(),
    ensures
        s@ == v@.subrange(from as int, to as int),
{
    let mut s = String::new();
    let mut i: usize = from;
    while i < to
        invariant
            from <= i <= to <= v@.len(),
            s@ == v@.subrange(from as int, i as int),
        decreases to - i,
    {
        s.push(v[i]);
        assert(v@.subrange(from as int, i + 1) =~= v@.subrange(from as int, i as int).push(
            v@[i as int],
        ));
        i = i + 1;
    }
    s
}

/// Whether `a` and `b` are the same text.
pub fn same_chars(a: &[char], b: &[char]) -> (r: bool)
    ensures
        r == (a@ == b@),
{
    if a.len() != b.len() {
        return false;
    }
    let mut i: usize = 0;
    while i < a.len()
        invariant
            i <= a@.len(),
            a@.len() == b@.len(),
            forall|k: int| 0 <= k < i ==> a@[k] == b@[k],
        decreases a@.len() - i,
    {
        if a[i] != b[i] {
            return false;
        }
        i = i + 1;
    }
    assert(a@ =~= b@);
    true
}

/// Whether `a` and `b` are the same text.
pub fn same(a: &str, b: &str) -> (r: bool)
    ensures
        r == (a@ == b@),
{
    let x = chars_of(a);
    let y = chars_of(b);
    same_chars(&x, &y)
}

/// The character of the decimal digit `d`.
pub open spec fn digit(d: int) -> char {
    (48 + d) as char
}

/// `n` in decimal.
pub open spec fn dec(n: nat) -> Seq<char>
    decreases n,
{
    if n < 10 {
        seq![digit(n as int)]
    } else {
        dec(n / 10).push(digit((n % 10) as int))
    }
}

/// Appends `n` in decimal.
pub fn push_dec(s: &mut String, n: u128)
    ensures
        final(s)@ == old(s)@ + dec(n as nat),
    decreases n,
{
    if n >= 10 {
        push_dec(s, n / 10);
    }
    let d: u8 = (48 + n % 10) as u8;
    s.push(d as char);
    assert(s@ =~= old(s)@ + dec(n as nat));
}

/// A decimal number consists of digits.
pub(crate) proof fn lemma_dec(n: nat)
    ensures
        dec(n).len() > 0,
        forall|i: int| 0 <= i < dec(n).len() ==> '0' <= #[trigger] dec(n)[i] <= '9',
    decreases n,
{
    if n >= 10 {
        lemma_dec(n / 10);
    }
}

/// `s` without the blanks at its end.
pub open spec fn trim_blanks(s: Seq<char>) -> Seq<char>
    decreases s.len(),
{
    if s.len() > 0 && s.last() == ' ' {
        trim_blanks(s.drop_last())
    } else {
        s
    }
}

/// What is trimmed does not end in a blank.
pub(crate) proof fn lemma_trim_blanks(s: Seq<char>)
    ensures
        trim_blanks(s).len() <= s.len(),
        trim_blanks(s).len() > 0 ==> trim_blanks(s).last() != ' ',
        trim_blanks(s) == s.take(trim_blanks(s).len() as int),
        forall|i: int| trim_blanks(s).len() <= i < s.len() ==> s[i] == ' ',
    decreases s.len(),
{
    if s.len() > 0 && s.last() == ' ' {
        lemma_trim_blanks(s.drop_last());
        let n = trim_blanks(s).len() as int;
        assert(s.drop_last().take(n) =~= s.take(n));
        assert forall|i: int| n <= i < s.len() implies s[i] == ' ' by {
            if i < s.len() - 1 {
                assert(s.drop_last()[i] == ' ');
            }
        }
    } else {
        assert(s.take(s.len() as int) =~= s);
    }
}

/// `n` times the character `c`.
pub open spec fn repeated(c: char, n: int) -> Seq<char> {
    Seq::new(if n > 0 { n as nat } else { 0 }, |i: int| c)
}

/// Appends `n` times the character `c`.
pub fn push_repeated(s: &mut String, c: char, n: usize)
    ensures
        final(s)@ == old(s)@ + repeated(c, n as int),
{
    let mut i: usize = 0;
    while i < n
        invariant
            i <= n,
            s@ == old(s)@ + repeated(c, i as int),
        decreases n - i,
    {
        s.push(c);
        i = i + 1;
        assert(s@ =~= old(s)@ + repeated(c, i as int));
    }
    assert(s@ =~= old(s)@ + repeated(c, n as int));
}

/// Appends the characters of `v`.
pub fn push_chars(s: &mut String, v: &[char])
    ensures
        final(s)@ == old(s)@ + v@,
{
    let mut i: usize = 0;
    while i < v.len()
        invariant
            i <= v@.len(),
            s@ == old(s)@ + v@.take(i as int),
        decreases v@.len() - i,
    {
        s.push(v[i]);
        i = i + 1;
        assert(s@ =~= old(s)@ + v@.take(i as int));
    }
    assert(v@.take(i as int) =~= v@);
}

// ── White space, words and case ──────────────────────────────────────────────

/// Unicode white space.
pub open spec fn is_space(c: char) -> bool {
    let n = c as u32;
    ||| 0x09 <= n <= 0x0d
    ||| n == 0x20
    ||| n == 0x85
    ||| n == 0xa0
    ||| n == 0x1680
    ||| 0x2000 <= n <= 0x200a
    ||| n == 0x2028
    ||| n == 0x2029
    ||| n == 0x202f
    ||| n == 0x205f
    ||| n == 0x3000
}

pub fn space_char(c: char) -> (r: bool)
    ensures
        r == is_space(c),
{
    let n: u32 = c as u32;
    (0x09 <= n && n <= 0x0d) || n == 0x20 || n == 0x85 || n == 0xa0 || n == 0x1680 || (0x2000 <= n
        && n <= 0x200a) || n == 0x2028 || n == 0x2029 || n == 0x202f || n == 0x205f || n == 0x3000
}

/// `s` without the white space at its start.
pub open spec fn trim_start(s: Seq<char>) -> Seq<char>
    decreases s.len(),
{
    if s.len() > 0 && is_space(s[0]) {
        trim_start(s.drop_first())
    } else {
        s
    }
}

/// `s` without the white space at its end.
pub open spec fn trim_end(s: Seq<char>) -> Seq<char>
    decreases s.len(),
{
    if s.len() > 0 && is_space(s.last()) {
        trim_end(s.drop_last())
    } else {
        s
    }
}

/// `s` without the white space around it.
pub open spec fn trim(s: Seq<char>) -> Seq<char> {
    trim_end(trim_start(s))
}

/// `s` up to its first white space.
pub open spec fn word_of(s: Seq<char>) -> Seq<char>
    decreases s.len(),
{
    if s.len() == 0 || is_space(s[0]) {
        Seq::empty()
    } else {
        seq![s[0]] + word_of(s.drop_first())
    }
}

/// The first word of `s`, empty where it has none.
pub open spec fn first_word(s: Seq<char>) -> Seq<char> {
    word_of(trim_start(s))
}

/// An ASCII letter in lower case; every other character as it is.
pub open spec fn lower(c: char) -> char {
    if 'A' <= c <= 'Z' {
        (c as u32 + 32) as char
    } else {
        c
    }
}

/// `s` with its ASCII letters in lower case.
pub open spec fn lower_all(s: Seq<char>) -> Seq<char> {
    s.map_values(|c: char| lower(c))
}

/// The place of the first character of `v` from `from` on that is no white space.
fn skip_spaces(v: &[char], from: usize) -> (i: usize)
    requires
        from <= v@.len(),
    ensures
        from <= i <= v@.len(),
        trim_start(v@.skip(from as int)) == v@.skip(i as int),
{
    let mut i: usize = from;
    while i < v.len() && space_char(v[i])
        invariant
            from <= i <= v@.len(),
            trim_start(v@.skip(from as int)) == trim_start(v@.skip(i as int)),
        decreases v@.len() - i,
    {
        assert(v@.skip(i as int).drop_first() =~= v@.skip(i + 1));
        i = i + 1;
    }
    i
}

/// The text without the white space around it.
pub fn trim_chars(v: &[char]) -> (r: Vec<char>)
    ensures
        r@ == trim(v@),
{
    let i: usize = skip_spaces(v, 0);
    assert(v@.skip(0) =~= v@);
    let mut j: usize = v.len();
    assert(v@.subrange(i as int, j as int) =~= v@.skip(i as int));
    while j > i && space_char(v[j - 1])
        invariant
            i <= j <= v@.len(),
            trim_end(v@.skip(i as int)) == trim_end(v@.subrange(i as int, j as int)),
        decreases j,
    {
        assert(v@.subrange(i as int, j as int).drop_last() =~= v@.subrange(i as int, j - 1));
        j = j - 1;
    }
    let mut r: Vec<char> = Vec::new();
    let mut k: usize = i;
    while k < j
        invariant
            i <= k <= j <= v@.len(),
            r@ == v@.subrange(i as int, k as int),
        decreases j - k,
    {
        r.push(v[k]);
        assert(r@ =~= v@.subrange(i as int, k + 1));
        k = k + 1;
    }
    r
}

/// `s` without the whitespace around it.
pub fn trim_string(s: &str) -> (r: String)
    ensures
        r@ == trim(s@),
{
    to_text(&trim_chars(&chars_of(s)))
}

/// Whether there is nothing in `s`.
pub fn is_empty(s: &str) -> (r: bool)
    ensures
        r == (s@.len() == 0),
{
    chars_of(s).len() == 0
}

/// `v` from `from` on, without the white space at its start.
pub fn trim_start_chars(v: &[char], from: usize) -> (r: Vec<char>)
    requires
        from <= v@.len(),
    ensures
        r@ == trim_start(v@.skip(from as int)),
{
    let i: usize = skip_spaces(v, from);
    let r = slice_chars(v, i, v.len());
    assert(r@ =~= v@.skip(i as int));
    r
}

/// `v` without the white space at its end.
pub fn trim_end_chars(v: &[char]) -> (r: Vec<char>)
    ensures
        r@ == trim_end(v@),
{
    let mut j: usize = v.len();
    assert(v@.take(j as int) =~= v@);
    while j > 0 && space_char(v[j - 1])
        invariant
            j <= v@.len(),
            trim_end(v@) == trim_end(v@.take(j as int)),
        decreases j,
    {
        assert(v@.take(j as int).drop_last() =~= v@.take(j - 1));
        j = j - 1;
    }
    let r = slice_chars(v, 0, j);
    assert(r@ =~= v@.take(j as int));
    r
}

/// The first word, empty where there is none.
pub fn first_word_chars(v: &[char]) -> (r: Vec<char>)
    ensures
        r@ == first_word(v@),
{
    let start: usize = skip_spaces(v, 0);
    assert(v@.skip(0) =~= v@);
    let mut r: Vec<char> = Vec::new();
    let mut i: usize = start;
    while i < v.len() && !space_char(v[i])
        invariant
            start <= i <= v@.len(),
            r@ + word_of(v@.skip(i as int)) == word_of(v@.skip(start as int)),
        decreases v@.len() - i,
    {
        let ghost rest = v@.skip(i as int);
        let ghost before = r@;
        assert(rest.drop_first() =~= v@.skip(i + 1));
        r.push(v[i]);
        assert(before + (seq![rest[0]] + word_of(v@.skip(i + 1))) =~= r@ + word_of(v@.skip(i + 1)));
        i = i + 1;
    }
    assert(r@ + Seq::<char>::empty() =~= r@);
    r
}

pub fn lower_char(c: char) -> (r: char)
    ensures
        r == lower(c),
{
    if 'A' <= c && c <= 'Z' {
        ((c as u8) + 32) as char
    } else {
        c
    }
}

pub fn lower_chars(v: &[char]) -> (r: Vec<char>)
    ensures
        r@ == lower_all(v@),
{
    let mut r: Vec<char> = Vec::new();
    while r.len() < v.len()
        invariant
            r@.len() <= v@.len(),
            forall|k: int| 0 <= k < r@.len() ==> r@[k] == lower(v@[k]),
        decreases v@.len() - r@.len(),
    {
        r.push(lower_char(v[r.len()]));
    }
    assert(r@ =~= lower_all(v@));
    r
}

/// Whether `v` is the text `s`.
pub fn chars_are(v: &[char], s: &str) -> (r: bool)
    ensures
        r == (v@ == s@),
{
    let w = chars_of(s);
    same_chars(v, &w)
}

/// A copy of `v`.
pub fn copy_chars(v: &[char]) -> (r: Vec<char>)
    ensures
        r@ == v@,
{
    let mut r: Vec<char> = Vec::new();
    while r.len() < v.len()
        invariant
            r@.len() <= v@.len(),
            forall|k: int| 0 <= k < r@.len() ==> r@[k] == v@[k],
        decreases v@.len() - r@.len(),
    {
        r.push(v[r.len()]);
    }
    assert(r@ =~= v@);
    r
}

/// The string of `v`.
pub fn to_text(v: &[char]) -> (s: String)
    ensures
        s@ == v@,
{
    assert(v@.subrange(0, v@.len() as int) =~= v@);
    string_of(v, 0, v.len())
}

/// The texts of a list of strings.
pub open spec fn texts(v: Seq<String>) -> Seq<Seq<char>> {
    Seq::new(v.len(), |i: int| v[i]@)
}

/// Appends a string to a list.
pub fn push_text(v: &mut Vec<String>, s: String)
    ensures
        final(v)@ == old(v)@.push(s),
        texts(final(v)@) == texts(old(v)@).push(s@),
{
    v.push(s);
    assert(texts(v@) =~= texts(old(v)@).push(s@));
}

/// Appends a line to a list.
pub fn push_line(v: &mut Vec<String>, s: &str)
    ensures
        texts(final(v)@) == texts(old(v)@).push(s@),
{
    push_text(v, s.to_owned());
}

/// A copy of a list of strings.
pub fn clone_texts(v: &[String]) -> (r: Vec<String>)
    ensures
        r@ == v@,
{
    let mut r: Vec<String> = Vec::new();
    while r.len() < v.len()
        invariant
            r@.len() <= v@.len(),
            forall|k: int| 0 <= k < r@.len() ==> r@[k] == v@[k],
        decreases v@.len() - r@.len(),
    {
        r.push(v[r.len()].clone());
    }
    assert(r@ =~= v@);
    r
}

/// How many bytes `c` takes in UTF-8.
pub open spec fn utf8_width(c: char) -> nat {
    if c as u32 <= 0x7f {
        1
    } else if c as u32 <= 0x7ff {
        2
    } else if c as u32 <= 0xffff {
        3
    } else {
        4
    }
}

/// How many bytes the first `n` characters of `s` take.
pub open spec fn byte_offset(s: Seq<char>, n: int) -> nat
    decreases n,
{
    if n <= 0 {
        0
    } else {
        byte_offset(s, n - 1) + utf8_width(s[n - 1])
    }
}

/// Text that is joined is encoded piece by piece.
pub(crate) proof fn lemma_encode_join(a: Seq<char>, b: Seq<char>)
    ensures
        encode_utf8(a + b) == encode_utf8(a) + encode_utf8(b),
    decreases a.len(),
{
    if a.len() == 0 {
        assert(a + b =~= b);
        assert(encode_utf8(a) + encode_utf8(b) =~= encode_utf8(b));
    } else {
        lemma_encode_join(a.drop_first(), b);
        assert((a + b).drop_first() =~= a.drop_first() + b);
        assert(encode_utf8(a + b) =~= encode_utf8(a) + encode_utf8(b));
    }
}

/// The offset behind the last character is the length of the encoded text.
pub(crate) proof fn lemma_encoded_len(s: Seq<char>, n: int)
    requires
        0 <= n <= s.len(),
    ensures
        byte_offset(s, n) == encode_utf8(s.take(n)).len(),
    decreases n,
{
    if n == 0 {
        assert(s.take(0) =~= Seq::empty());
    } else {
        lemma_encoded_len(s, n - 1);
        let c = seq![s[n - 1]];
        assert(s.take(n) =~= s.take(n - 1) + c);
        lemma_encode_join(s.take(n - 1), c);
        reveal_with_fuel(encode_utf8, 2);
        assert(c.drop_first() =~= Seq::empty());
        let one: char = s[n - 1];
        char_is_scalar(one);
        assert(encode_utf8(c) =~= encode_scalar(one as u32));
        assert(encode_scalar(one as u32).len() == utf8_width(one));
    }
}

/// How many bytes the first `n` characters of `v` take.
pub fn bytes_before(v: &[char], n: usize) -> (b: u128)
    requires
        n <= v@.len(),
    ensures
        b == byte_offset(v@, n as int),
        b <= 4 * n,
{
    let mut b: u128 = 0;
    let mut i: usize = 0;
    while i < n
        invariant
            i <= n <= v@.len(),
            b == byte_offset(v@, i as int),
            b <= 4 * i,
        decreases n - i,
    {
        let c: u32 = v[i] as u32;
        let w: u128 = if c <= 0x7f {
            1
        } else if c <= 0x7ff {
            2
        } else if c <= 0xffff {
            3
        } else {
            4
        };
        b = b + w;
        i = i + 1;
    }
    b
}

/// Whether `v` begins with `w`.
pub fn begins_with(v: &[char], w: &[char]) -> (r: bool)
    ensures
        r == w@.is_prefix_of(v@),
{
    if w.len() > v.len() {
        return false;
    }
    let mut i: usize = 0;
    while i < w.len()
        invariant
            i <= w@.len() <= v@.len(),
            forall|k: int| 0 <= k < i ==> v@[k] == w@[k],
        decreases w@.len() - i,
    {
        if v[i] != w[i] {
            assert(v@.subrange(0, w@.len() as int)[i as int] != w@[i as int]);
            return false;
        }
        i = i + 1;
    }
    assert(w@ =~= v@.subrange(0, w@.len() as int));
    true
}

/// `v[from..to]`.
pub fn slice_chars(v: &[char], from: usize, to: usize) -> (r: Vec<char>)
    requires
        from <= to <= v@.len(),
    ensures
        r@ == v@.subrange(from as int, to as int),
{
    let mut r: Vec<char> = Vec::new();
    let mut i: usize = from;
    while i < to
        invariant
            from <= i <= to <= v@.len(),
            r@ == v@.subrange(from as int, i as int),
        decreases to - i,
    {
        r.push(v[i]);
        assert(r@ =~= v@.subrange(from as int, i + 1));
        i = i + 1;
    }
    r
}

/// `s` in the middle of `n` characters, filled up with `fill`.
pub open spec fn centered(s: Seq<char>, fill: char, n: int) -> Seq<char> {
    let pad = n - s.len();
    if pad <= 0 {
        s
    } else {
        repeated(fill, pad / 2) + s + repeated(fill, pad - pad / 2)
    }
}

/// `v` in the middle of `n` characters, filled up with `fill`.
pub fn center_chars(v: &[char], fill: char, n: usize) -> (r: Vec<char>)
    ensures
        r@ == centered(v@, fill, n as int),
{
    let len: usize = v.len();
    if n <= len {
        return copy_chars(v);
    }
    let pad: usize = n - len;
    let left: usize = pad / 2;
    let mut r: Vec<char> = Vec::new();
    while r.len() < n
        invariant
            r@.len() <= n,
            len == v@.len(),
            left <= n - len,
            forall|k: int|
                0 <= k < r@.len() ==> r@[k] == (if left <= k < left + len {
                    v@[k - left]
                } else {
                    fill
                }),
        decreases n - r@.len(),
    {
        let i: usize = r.len();
        if left <= i && i - left < len {
            r.push(v[i - left]);
        } else {
            r.push(fill);
        }
    }
    assert(r@ =~= centered(v@, fill, n as int));
    r
}

/// A title between blanks.
pub open spec fn titled(title: Seq<char>) -> Seq<char> {
    seq![' '] + title + seq![' ']
}

/// A title between blanks.
pub fn titled_chars(title: &str) -> (r: Vec<char>)
    ensures
        r@ == titled(title@),
{
    let v = chars_of(title);
    let mut r: Vec<char> = Vec::new();
    r.push(' ');
    let mut i: usize = 0;
    while i < v.len()
        invariant
            i <= v@.len(),
            r@ == seq![' '] + v@.take(i as int),
        decreases v@.len() - i,
    {
        r.push(v[i]);
        i = i + 1;
        assert(r@ =~= seq![' '] + v@.take(i as int));
    }
    r.push(' ');
    assert(r@ =~= titled(title@));
    r
}

/// What is trimmed has nothing left to trim.
pub(crate) proof fn lemma_trim(s: Seq<char>)
    ensures
        trim(trim(s)) == trim(s),
{
    lemma_trim_start(s);
    lemma_trim_end(trim_start(s));
    let t = trim(s);
    let u = trim_start(s);
    assert(t.len() > 0 ==> t[0] == u[0]);
    assert(trim_start(t) == t);
    lemma_trim_end_done(t);
}

proof fn lemma_trim_start(s: Seq<char>)
    ensures
        trim_start(s).len() > 0 ==> !is_space(trim_start(s)[0]),
    decreases s.len(),
{
    if s.len() > 0 && is_space(s[0]) {
        lemma_trim_start(s.drop_first());
    }
}

proof fn lemma_trim_end(s: Seq<char>)
    ensures
        trim_end(s).len() <= s.len(),
        trim_end(s).len() > 0 ==> !is_space(trim_end(s).last()) && trim_end(s)[0] == s[0],
    decreases s.len(),
{
    if s.len() > 0 && is_space(s.last()) {
        lemma_trim_end(s.drop_last());
    }
}

proof fn lemma_trim_end_done(s: Seq<char>)
    requires
        s.len() > 0 ==> !is_space(s.last()),
    ensures
        trim_end(s) == s,
{
}

// ── Text out of bytes ────────────────────────────────────────────────────────

/// What `String::from_utf8_lossy` makes of bytes.
pub uninterp spec fn lossy_text(bytes: Seq<u8>) -> Seq<char>;

/// `String::from_utf8_lossy` gives the text that the bytes spell; of bytes that are
/// not UTF-8 it gives some text, which depends on them alone. What stands in that
/// text for the wrong bytes is not said here.
#[verifier::external_body]
pub(crate) fn lossy(bytes: &[u8]) -> (s: String)
    ensures
        s@ == lossy_text(bytes@),
        valid_utf8(bytes@) ==> s@ == decode_utf8(bytes@),
{
    String::from_utf8_lossy(bytes).into_owned()
}

} // verus!

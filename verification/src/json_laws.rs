//! What escapes in a string stand for, and which field of an object is found.
use vstd::prelude::*;
use crate::json::{find_field, hex_at, hex_digit, surrogate_char, unicode_at, JsonModel};

verus! {

/// The hexadecimal digit of a number below 16.
pub open spec fn hex_char(d: int) -> char {
    if d < 10 {
        (48 + d) as char
    } else {
        (87 + d) as char
    }
}

/// The four hexadecimal digits of a number below 65536.
pub open spec fn four_digits(n: int) -> Seq<char> {
    seq![
        hex_char(n / 4096),
        hex_char(n / 256 % 16),
        hex_char(n / 16 % 16),
        hex_char(n % 16),
    ]
}

proof fn lemma_hex_char(d: int)
    requires
        0 <= d < 16,
    ensures
        hex_digit(hex_char(d)) == Some(d as u32),
{
}

/// Four digits are read as the number that they spell.
proof fn lemma_four_digits(s: Seq<char>, p: int, n: int)
    requires
        0 <= n < 0x10000,
        0 <= p,
        p + 4 <= s.len(),
        s.subrange(p, p + 4) == four_digits(n),
    ensures
        hex_at(s, p, 4, 0) == Ok::<(u32, int), crate::json::Fault>((n as u32, p + 4)),
{
    let d = four_digits(n);
    let (a, b, c, e) = (n / 4096, n / 256 % 16, n / 16 % 16, n % 16);
    assert(s[p] == d[0]) by {
        assert(s.subrange(p, p + 4)[0] == s[p]);
    }
    assert(s[p + 1] == d[1]) by {
        assert(s.subrange(p, p + 4)[1] == s[p + 1]);
    }
    assert(s[p + 2] == d[2]) by {
        assert(s.subrange(p, p + 4)[2] == s[p + 2]);
    }
    assert(s[p + 3] == d[3]) by {
        assert(s.subrange(p, p + 4)[3] == s[p + 3]);
    }
    lemma_hex_char(a);
    lemma_hex_char(b);
    lemma_hex_char(c);
    lemma_hex_char(e);
    assert(((a * 16 + b) * 16 + c) * 16 + e == n);
    reveal_with_fuel(hex_at, 5);
}

/// A character of the first 65536 is read from the four digits of its number.
pub proof fn lemma_short_escape_read(c: char)
    requires
        (c as u32) < 0x10000,
    ensures
        unicode_at(four_digits(c as int), 0) == Ok::<(char, int), crate::json::Fault>((c, 4)),
{
    let s = four_digits(c as int);
    assert(s.subrange(0, 4) =~= s);
    lemma_four_digits(s, 0, c as int);
}

/// Any other character is read from two escapes: what its number is above 65536 is parted
/// into ten bits each.
pub proof fn lemma_long_escape_read(c: char)
    requires
        c as u32 >= 0x10000,
    ensures
        ({
            let n = c as int - 0x10000;
            let s = four_digits(0xd800 + n / 1024) + seq!['\\', 'u'] + four_digits(
                0xdc00 + n % 1024,
            );
            unicode_at(s, 0) == Ok::<(char, int), crate::json::Fault>((c, 10))
        }),
{
    let n = c as int - 0x10000;
    let (high, low) = (0xd800 + n / 1024, 0xdc00 + n % 1024);
    let s = four_digits(high) + seq!['\\', 'u'] + four_digits(low);
    assert(s.subrange(0, 4) =~= four_digits(high));
    assert(s.subrange(6, 10) =~= four_digits(low));
    lemma_four_digits(s, 0, high);
    lemma_four_digits(s, 6, low);
    assert(s[4] == '\\' && s[5] == 'u');
    assert(0x10000 + (high - 0xd800) * 1024 + (low - 0xdc00) == c as int);
    assert(surrogate_char(high as u32, low as u32) == Some(c));
}

/// Of fields with the same name the first is found, and where none has the name, nothing.
pub proof fn lemma_first_field(f: Seq<(Seq<char>, JsonModel)>, key: Seq<char>, i: int)
    requires
        0 <= i <= f.len(),
        forall|k: int| 0 <= k < i ==> (#[trigger] f[k]).0 != key,
        i < f.len() ==> f[i].0 == key,
    ensures
        find_field(f, key) == (if i < f.len() {
            Some(f[i].1)
        } else {
            None
        }),
    decreases f.len(),
{
    if i > 0 {
        let g = f.drop_first();
        assert(f[0].0 != key);
        assert forall|k: int| 0 <= k < i - 1 implies (#[trigger] g[k]).0 != key by {
            assert(g[k] == f[k + 1]);
        }
        if i < f.len() {
            assert(g[i - 1] == f[i]);
        }
        lemma_first_field(g, key, i - 1);
    }
}

} // verus!

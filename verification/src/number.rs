//! Decimal numbers as text, and the whole numbers that they come to.
//!
//! A number is kept as it was written. Where a whole number is asked for, the
//! text is taken to the nearest double precision number and cut towards zero:
//! a fraction that lies closer to the next whole number than any double below it
//! counts as that number.
use vstd::prelude::*;

verus! {

pub open spec fn is_digit(c: char) -> bool {
    '0' <= c <= '9'
}

fn digit_char(c: char) -> (r: bool)
    ensures
        r == is_digit(c),
{
    '0' <= c && c <= '9'
}

/// The end of the digits of `t` that start at `i`.
pub open spec fn digits_end(t: Seq<char>, i: int) -> int
    decreases t.len() - i,
{
    if 0 <= i < t.len() && is_digit(t[i]) {
        digits_end(t, i + 1)
    } else {
        i
    }
}

pub open spec fn is_sign(t: Seq<char>, i: int) -> bool {
    0 <= i < t.len() && (t[i] == '-' || t[i] == '+')
}

/// Where the parts of a number lie: its first digit, the end of its whole part,
/// the end of its fraction, and the first digit and end of its exponent.
pub struct Parts {
    pub start: int,
    pub whole: int,
    pub fraction: int,
    pub exponent: int,
    pub end: int,
}

pub open spec fn parts(t: Seq<char>) -> Parts {
    let start: int = if is_sign(t, 0) {
        1
    } else {
        0
    };
    let whole = digits_end(t, start);
    let fraction = if whole < t.len() && t[whole] == '.' {
        digits_end(t, whole + 1)
    } else {
        whole
    };
    let exponent = if fraction < t.len() && (t[fraction] == 'e' || t[fraction] == 'E') {
        if is_sign(t, fraction + 1) {
            fraction + 2
        } else {
            fraction + 1
        }
    } else {
        fraction
    };
    Parts { start, whole, fraction, exponent, end: digits_end(t, exponent) }
}

/// Whether `t` is a number: an optional sign, digits with at most one point among
/// them, and an optional exponent.
pub open spec fn is_number(t: Seq<char>) -> bool {
    let p = parts(t);
    let digits = (p.whole - p.start) + (if p.fraction > p.whole {
        p.fraction - p.whole - 1
    } else {
        0
    });
    &&& digits > 0
    &&& p.end == t.len()
    &&& p.exponent > p.fraction ==> p.end > p.exponent
}

proof fn lemma_digits_end(t: Seq<char>, i: int)
    requires
        0 <= i <= t.len(),
    ensures
        i <= digits_end(t, i) <= t.len(),
        forall|k: int| i <= k < digits_end(t, i) ==> is_digit(#[trigger] t[k]),
    decreases t.len() - i,
{
    if i < t.len() && is_digit(t[i]) {
        lemma_digits_end(t, i + 1);
    }
}

fn find_digits_end(t: &[char], from: usize) -> (end: usize)
    requires
        from <= t@.len(),
    ensures
        end == digits_end(t@, from as int),
        from <= end <= t@.len(),
        forall|k: int| from <= k < end ==> is_digit(#[trigger] t@[k]),
{
    let mut i: usize = from;
    while i < t.len() && digit_char(t[i])
        invariant
            from <= i <= t@.len(),
            digits_end(t@, from as int) == digits_end(t@, i as int),
        decreases t@.len() - i,
    {
        i = i + 1;
    }
    proof {
        lemma_digits_end(t@, from as int);
    }
    i
}

fn sign_at(t: &[char], i: usize) -> (r: bool)
    ensures
        r == is_sign(t@, i as int),
{
    i < t.len() && (t[i] == '-' || t[i] == '+')
}

/// `Parts` in executable code.
struct Bounds {
    start: usize,
    whole: usize,
    fraction: usize,
    exponent: usize,
    end: usize,
}

fn bounds(t: &[char]) -> (b: Bounds)
    ensures
        ({
            let p = parts(t@);
            &&& b.start == p.start
            &&& b.whole == p.whole
            &&& b.fraction == p.fraction
            &&& b.exponent == p.exponent
            &&& b.end == p.end
            &&& b.start <= b.whole <= b.fraction <= b.exponent <= b.end <= t@.len()
            &&& forall|k: int| b.start <= k < b.whole ==> is_digit(#[trigger] t@[k])
            &&& forall|k: int| b.whole < k < b.fraction ==> is_digit(#[trigger] t@[k])
            &&& forall|k: int| b.exponent <= k < b.end ==> is_digit(#[trigger] t@[k])
        }),
{
    let start: usize = if sign_at(t, 0) {
        1
    } else {
        0
    };
    let whole: usize = find_digits_end(t, start);
    let fraction: usize = if whole < t.len() && t[whole] == '.' {
        find_digits_end(t, whole + 1)
    } else {
        whole
    };
    let exponent: usize = if fraction < t.len() && (t[fraction] == 'e' || t[fraction] == 'E') {
        if sign_at(t, fraction + 1) {
            fraction + 2
        } else {
            fraction + 1
        }
    } else {
        fraction
    };
    let end: usize = find_digits_end(t, exponent);
    Bounds { start, whole, fraction, exponent, end }
}

/// Whether `t` is a number.
pub fn check_number(t: &[char]) -> (r: bool)
    ensures
        r == is_number(t@),
{
    let b = bounds(t);
    let after: usize = if b.fraction > b.whole {
        b.fraction - b.whole - 1
    } else {
        0
    };
    (b.whole > b.start || after > 0) && b.end == t.len() && (b.exponent <= b.fraction || b.end
        > b.exponent)
}

// ── Values ───────────────────────────────────────────────────────────────────

/// The value of the digit `c`.
pub open spec fn digit_value(c: char) -> nat {
    (c as u32 - 48) as nat
}

/// What a row of digits comes to.
pub open spec fn value(t: Seq<char>) -> nat
    decreases t.len(),
{
    if t.len() == 0 {
        0
    } else {
        value(t.drop_last()) * 10 + digit_value(t.last())
    }
}

pub open spec fn all_digits(t: Seq<char>) -> bool {
    forall|k: int| 0 <= k < t.len() ==> is_digit(#[trigger] t[k])
}

/// Ten to the power of `m`.
pub open spec fn ten(m: nat) -> nat
    decreases m,
{
    if m == 0 {
        1
    } else {
        10 * ten((m - 1) as nat)
    }
}

/// The digits of a number, without sign, point and exponent.
pub open spec fn mantissa(t: Seq<char>) -> Seq<char> {
    let p = parts(t);
    if p.fraction > p.whole {
        t.subrange(p.start, p.whole) + t.subrange(p.whole + 1, p.fraction)
    } else {
        t.subrange(p.start, p.whole)
    }
}

/// How many digits of the mantissa stand before the point once the exponent has
/// moved it; negative where zeros stand between.
pub open spec fn point(t: Seq<char>) -> int {
    let p = parts(t);
    let e = value(t.subrange(p.exponent, p.end));
    let before = p.whole - p.start;
    if is_sign(t, p.exponent - 1) && p.exponent > p.fraction && t[p.exponent - 1] == '-' {
        before - e
    } else {
        before + e
    }
}

/// The whole part of the digits `d` with the point after `at` of them.
pub open spec fn whole_part(d: Seq<char>, at: int) -> nat {
    if at <= 0 {
        0
    } else if at <= d.len() {
        value(d.take(at))
    } else {
        value(d) * ten((at - d.len()) as nat)
    }
}

/// The digits after the point.
pub open spec fn fraction_part(d: Seq<char>, at: int) -> Seq<char> {
    if at >= d.len() {
        Seq::empty()
    } else if at >= 0 {
        d.skip(at)
    } else {
        Seq::new((-at) as nat, |i: int| '0') + d
    }
}

/// One over the distance from `k` down to the middle between it and the double
/// below it.
pub open spec fn grain(k: nat) -> nat
    decreases k,
{
    if k <= 1 {
        0x40000000000000
    } else {
        grain((k + 1) / 2) / 2
    }
}

/// Whether the fraction `f` below the whole number `k` rounds up to it.
pub open spec fn rounds_up(f: Seq<char>, k: nat) -> bool {
    value(f) * grain(k) >= (grain(k) - 1) * ten(f.len())
}

/// The largest whole number that is told apart.
pub const LARGEST: u32 = 0xffff;

/// The whole number that the text `t` of a number comes to: nothing below 0 and
/// nothing above `LARGEST` is told apart.
pub open spec fn whole_of(t: Seq<char>) -> nat {
    let d = mantissa(t);
    let at = point(t);
    let w = whole_part(d, at);
    if t.len() > 0 && t[0] == '-' {
        0
    } else if w >= LARGEST {
        LARGEST as nat
    } else if rounds_up(fraction_part(d, at), w + 1) {
        w + 1
    } else {
        w
    }
}

// ── Lemmas ───────────────────────────────────────────────────────────────────

proof fn lemma_ten_add(a: nat, b: nat)
    ensures
        ten(a + b) == ten(a) * ten(b),
        ten(a) >= 1,
    decreases a,
{
    if a > 0 {
        lemma_ten_add((a - 1) as nat, b);
        let x = ten((a - 1) as nat);
        let y = ten(b);
        assert((a - 1) as nat + b == (a + b - 1) as nat);
        assert(10 * (x * y) == (10 * x) * y) by (nonlinear_arith);
    } else {
        assert(1 * ten(b) == ten(b)) by (nonlinear_arith);
    }
}

/// The value of two rows of digits joined.
pub(crate) proof fn lemma_value_add(a: Seq<char>, b: Seq<char>)
    ensures
        value(a + b) == value(a) * ten(b.len()) + value(b),
    decreases b.len(),
{
    if b.len() == 0 {
        assert(a + b =~= a);
        assert(value(a) * 1 == value(a)) by (nonlinear_arith);
    } else {
        let c = b.drop_last();
        lemma_value_add(a, c);
        assert((a + b).drop_last() =~= a + c);
        let (x, y, z) = (value(a), ten(c.len()), value(c));
        assert((x * y + z) * 10 == x * (10 * y) + z * 10) by (nonlinear_arith);
    }
}

/// A row of digits comes to less than the power of ten that it takes.
pub(crate) proof fn lemma_value_bound(a: Seq<char>)
    requires
        all_digits(a),
    ensures
        value(a) < ten(a.len()),
    decreases a.len(),
{
    if a.len() > 0 {
        assert forall|k: int| 0 <= k < a.drop_last().len() implies is_digit(
            #[trigger] a.drop_last()[k],
        ) by {
            assert(is_digit(a[k]));
        }
        lemma_value_bound(a.drop_last());
        assert(is_digit(a[a.len() - 1]));
    }
}

pub(crate) proof fn lemma_grain(k: nat)
    requires
        1 <= k <= 0x10000,
    ensures
        0x2000000000 <= grain(k) <= 0x40000000000000,
{
    lemma_twos(16);
    lemma_grain_step(k, 16);
}

/// Each doubling of `k` costs one bit of the grain.
proof fn lemma_grain_step(k: nat, n: nat)
    requires
        1 <= k,
        n <= 17,
        k <= twos(n),
    ensures
        grain(k) >= 0x40000000000000nat / twos(n),
        grain(k) <= 0x40000000000000,
    decreases n,
{
    lemma_twos(n);
    if n > 0 {
        lemma_grain_step(if k <= 1 { 1 } else { (k + 1) / 2 }, (n - 1) as nat);
        lemma_twos((n - 1) as nat);
        let t = twos((n - 1) as nat);
        assert(0x40000000000000nat / (2 * t) == (0x40000000000000nat / t) / 2) by {
            vstd::arithmetic::div_mod::lemma_div_denominator(
                0x40000000000000int,
                t as int,
                2,
            );
            assert(2 * t == t * 2);
        }
    }
}

spec fn twos(n: nat) -> nat
    decreases n,
{
    if n == 0 {
        1
    } else {
        2 * twos((n - 1) as nat)
    }
}

proof fn lemma_twos(n: nat)
    requires
        n <= 17,
    ensures
        1 <= twos(n) <= 0x20000,
        n == 16 ==> twos(n) == 0x10000,
{
    reveal_with_fuel(twos, 18);
}

// ── Executable code ──────────────────────────────────────────────────────────

fn compute_grain(k: u32) -> (g: u64)
    requires
        1 <= k <= 0x10000,
    ensures
        g == grain(k as nat),
        0x2000000000 <= g <= 0x40000000000000,
    decreases k,
{
    proof {
        lemma_grain(k as nat);
    }
    if k <= 1 {
        0x40000000000000
    } else {
        compute_grain((k + 1) / 2) / 2
    }
}

fn value_of_digit(c: char) -> (v: u64)
    requires
        is_digit(c),
    ensures
        v == digit_value(c),
        v <= 9,
{
    (c as u32 - 48) as u64
}

/// Whether the digits `f` below the whole number `k` round up to it.
fn check_rounds_up(f: &[char], k: u32) -> (r: bool)
    requires
        1 <= k <= 0x10000,
        all_digits(f@),
    ensures
        r == rounds_up(f@, k as nat),
{
    let g: u64 = compute_grain(k);
    let mut rest: u64 = g - 1;
    let mut i: usize = 0;
    assert(f@.take(0) =~= Seq::empty());
    assert((g - 1) * 1 == g - 1) by (nonlinear_arith);
    assert(0 * g == 0) by (nonlinear_arith);
    while i < f.len()
        invariant
            i <= f@.len(),
            all_digits(f@),
            g == grain(k as nat),
            0x2000000000 <= g <= 0x40000000000000,
            rest < g,
            value(f@.take(i as int)) * g + rest == (g - 1) * ten(i as nat),
        decreases f@.len() - i,
    {
        let digit: u64 = (10 * rest) / g;
        let next: u64 = (10 * rest) % g;
        let c: u64 = value_of_digit(f[i]);
        proof {
            let before = value(f@.take(i as int)) as int;
            let after = value(f@.take(i + 1)) as int;
            let t = ten(i as nat) as int;
            assert(f@.take(i + 1).drop_last() =~= f@.take(i as int));
            assert(after == before * 10 + c);
            assert(10 * rest == digit * g + next) by {
                vstd::arithmetic::div_mod::lemma_fundamental_div_mod((10 * rest) as int, g as int);
                assert(g * digit == digit * g) by (nonlinear_arith);
            }
            // The threshold so far, one digit on.
            assert((g - 1) * (10 * t) == before * 10 * g + digit * g + next) by (nonlinear_arith)
                requires
                    before * g + rest == (g - 1) * t,
                    10 * rest == digit * g + next,
            ;
            assert(after * g == before * 10 * g + c * g) by (nonlinear_arith)
                requires
                    after == before * 10 + c,
            ;
            if c != digit {
                lemma_compare(f@, i as int, g as int, digit as int, next as int);
            }
        }
        if c > digit {
            return true;
        }
        if c < digit {
            return false;
        }
        rest = next;
        i = i + 1;
    }
    assert(f@.take(i as int) =~= f@);
    rest == 0
}

/// The first digit in which a fraction differs from the threshold decides.
proof fn lemma_compare(f: Seq<char>, i: int, g: int, digit: int, next: int)
    requires
        0 <= i < f.len(),
        all_digits(f),
        0 <= next < g,
        (g - 1) * ten((i + 1) as nat) == value(f.take(i)) * 10 * g + digit * g + next,
        value(f.take(i + 1)) == value(f.take(i)) * 10 + digit_value(f[i]),
        digit_value(f[i]) != digit,
    ensures
        value(f) * g >= (g - 1) * ten(f.len()) <==> digit_value(f[i]) > digit,
{
    let head = f.take(i + 1);
    let tail = f.skip(i + 1);
    assert(head + tail =~= f);
    lemma_value_add(head, tail);
    assert(all_digits(tail));
    lemma_value_bound(tail);
    lemma_ten_add((i + 1) as nat, tail.len());
    let b = value(f.take(i)) as int;
    let c = digit_value(f[i]) as int;
    let h = value(head) as int;
    let v = value(tail) as int;
    let m = ten(tail.len()) as int;
    let t = ten((i + 1) as nat) as int;
    assert((g - 1) * (t * m) == (b * 10 * g + digit * g + next) * m) by (nonlinear_arith)
        requires
            (g - 1) * t == b * 10 * g + digit * g + next,
    ;
    if c > digit {
        assert((h * m + v) * g >= (b * 10 * g + digit * g + next) * m) by (nonlinear_arith)
            requires
                h == b * 10 + c,
                c >= digit + 1,
                0 <= next < g,
                0 <= v,
                1 <= m,
        ;
    } else {
        assert((h * m + v) * g < (b * 10 * g + digit * g + next) * m) by (nonlinear_arith)
            requires
                h == b * 10 + c,
                c + 1 <= digit,
                0 <= next < g,
                v < m,
                1 <= m,
        ;
    }
}

/// The value of `t[from..to]`, with everything from `cap` on told as `cap`.
fn capped_value(t: &[char], from: usize, to: usize, cap: u128) -> (v: u128)
    requires
        from <= to <= t@.len(),
        1 <= cap <= 0x10000000000000000000000000,
        forall|k: int| from <= k < to ==> is_digit(#[trigger] t@[k]),
    ensures
        v == (if value(t@.subrange(from as int, to as int)) < cap {
            value(t@.subrange(from as int, to as int))
        } else {
            cap as nat
        }),
{
    let mut v: u128 = 0;
    let mut i: usize = from;
    assert(t@.subrange(from as int, from as int) =~= Seq::empty());
    while i < to
        invariant
            from <= i <= to <= t@.len(),
            1 <= cap <= 0x10000000000000000000000000,
            v <= cap,
            forall|k: int| from <= k < to ==> is_digit(#[trigger] t@[k]),
            v == (if value(t@.subrange(from as int, i as int)) < cap {
                value(t@.subrange(from as int, i as int))
            } else {
                cap as nat
            }),
        decreases to - i,
    {
        let ghost next = t@.subrange(from as int, i + 1);
        proof {
            assert(next.drop_last() =~= t@.subrange(from as int, i as int));
            assert(next.last() == t@[i as int]);
        }
        let w: u128 = v * 10 + value_of_digit(t[i]) as u128;
        v = if w < cap {
            w
        } else {
            cap
        };
        i = i + 1;
    }
    v
}

/// The digits of a number.
fn digits_of(t: &[char], b: &Bounds) -> (d: Vec<char>)
    requires
        b.start <= b.whole <= b.fraction <= t@.len(),
        forall|k: int| b.start <= k < b.whole ==> is_digit(#[trigger] t@[k]),
        forall|k: int| b.whole < k < b.fraction ==> is_digit(#[trigger] t@[k]),
    ensures
        d@ == (if b.fraction > b.whole {
            t@.subrange(b.start as int, b.whole as int) + t@.subrange(
                b.whole + 1,
                b.fraction as int,
            )
        } else {
            t@.subrange(b.start as int, b.whole as int)
        }),
        all_digits(d@),
{
    let mut d: Vec<char> = Vec::new();
    let mut i: usize = b.start;
    while i < b.whole
        invariant
            b.start <= i <= b.whole <= t@.len(),
            d@ == t@.subrange(b.start as int, i as int),
        decreases b.whole - i,
    {
        d.push(t[i]);
        assert(d@ =~= t@.subrange(b.start as int, i + 1));
        i = i + 1;
    }
    if b.fraction > b.whole {
        let ghost head = d@;
        i = b.whole + 1;
        assert(d@ =~= head + t@.subrange(b.whole + 1, b.whole + 1));
        while i < b.fraction
            invariant
                b.whole + 1 <= i <= b.fraction <= t@.len(),
                d@ == head + t@.subrange(b.whole + 1, i as int),
            decreases b.fraction - i,
        {
            d.push(t[i]);
            assert(d@ =~= head + t@.subrange(b.whole + 1, i + 1));
            i = i + 1;
        }
    }
    proof {
        let whole = b.whole - b.start;
        assert forall|k: int| 0 <= k < d@.len() implies is_digit(#[trigger] d@[k]) by {
            if k < whole {
                assert(d@[k] == t@[b.start + k]);
            } else {
                assert(d@[k] == t@[b.whole + 1 + (k - whole)]);
            }
        }
    }
    d
}

/// `v` times ten to the power of `m`, with everything from `cap` on told as `cap`.
fn capped_shift(v: u128, m: u128, cap: u128) -> (r: u128)
    requires
        v <= cap,
        1 <= cap <= 0x10000000000000000000000000,
    ensures
        r == (if v * ten(m as nat) < cap {
            v * ten(m as nat)
        } else {
            cap as int
        }),
    decreases m,
{
    proof {
        lemma_ten_add(m as nat, 0);
        assert(v * 1 == v) by (nonlinear_arith);
        assert(0 * ten(m as nat) == 0) by (nonlinear_arith);
        assert(cap * ten(m as nat) >= cap) by (nonlinear_arith)
            requires
                ten(m as nat) >= 1,
        ;
    }
    if m == 0 || v == 0 || v == cap {
        return v;
    }
    let w: u128 = if v * 10 < cap {
        v * 10
    } else {
        cap
    };
    let r: u128 = capped_shift(w, m - 1, cap);
    proof {
        let t = ten((m - 1) as nat);
        lemma_ten_add((m - 1) as nat, 0);
        assert(v * (10 * t) == (v * 10) * t) by (nonlinear_arith);
        if v * 10 >= cap {
            assert((v * 10) * t >= cap) by (nonlinear_arith)
                requires
                    v * 10 >= cap,
                    t >= 1,
            ;
            assert(cap * t >= cap) by (nonlinear_arith)
                requires
                    t >= 1,
            ;
        }
    }
    r
}

/// Digits far to the left of the point, where only what lies below `LARGEST` is
/// told apart.
proof fn lemma_far(d: Seq<char>, m: nat, at: int, v: nat)
    requires
        v == (if value(d) < LARGEST {
            value(d)
        } else {
            LARGEST as nat
        }),
        m >= 1,
        at - d.len() == m || (at - d.len() >= m && m >= 5),
    ensures
        whole_part(d, at) < LARGEST ==> v * ten(m) == whole_part(d, at),
        whole_part(d, at) >= LARGEST ==> v * ten(m) >= LARGEST,
{
    let x = (at - d.len()) as nat;
    let w = value(d);
    lemma_ten_add(m, 0);
    lemma_ten_add(x, 0);
    if w >= LARGEST {
        assert(w * ten(x) >= LARGEST) by (nonlinear_arith)
            requires
                w >= LARGEST,
                ten(x) >= 1,
        ;
        assert(LARGEST * ten(m) >= LARGEST) by (nonlinear_arith)
            requires
                ten(m) >= 1,
        ;
    } else if w == 0 {
        assert(0 * ten(x) == 0 && 0 * ten(m) == 0) by (nonlinear_arith);
    } else if x != m {
        lemma_ten_add(5, (m - 5) as nat);
        lemma_ten_add(5, (x - 5) as nat);
        lemma_ten_add((m - 5) as nat, 0);
        lemma_ten_add((x - 5) as nat, 0);
        reveal_with_fuel(ten, 6);
        assert(ten(5) == 100000);
        let (a, b) = (ten((m - 5) as nat), ten((x - 5) as nat));
        assert(w * (100000 * a) >= 100000 && w * (100000 * b) >= 100000) by (nonlinear_arith)
            requires
                w >= 1,
                a >= 1,
                b >= 1,
        ;
    }
}

/// A fraction that begins with 0 does not round up to 1.
proof fn lemma_small(f: Seq<char>)
    requires
        f.len() > 0,
        f[0] == '0',
        all_digits(f),
    ensures
        !rounds_up(f, 1),
{
    let tail = f.skip(1);
    assert(f.take(1) + tail =~= f);
    lemma_value_add(f.take(1), tail);
    assert(f.take(1).drop_last() =~= Seq::empty());
    reveal_with_fuel(value, 2);
    assert(f.take(1).last() == '0');
    assert(value(f.take(1)) == 0);
    assert(all_digits(tail));
    lemma_value_bound(tail);
    let m = ten(tail.len()) as int;
    let g = grain(1) as int;
    let v = value(f) as int;
    assert(0 * m == 0) by (nonlinear_arith);
    assert(v * g < (g - 1) * (10 * m)) by (nonlinear_arith)
        requires
            0 <= v < m,
            g == 0x40000000000000,
    ;
}

/// The whole number that the text of a number comes to.
pub fn whole_number(t: &[char]) -> (w: u32)
    requires
        is_number(t@),
    ensures
        w == whole_of(t@),
        w <= LARGEST,
{
    let b = bounds(t);
    if t.len() > 0 && t[0] == '-' {
        return 0;
    }
    let d = digits_of(t, &b);
    let cap: u128 = 0x10000000000000000000000000;
    let e: u128 = capped_value(t, b.exponent, b.end, cap);
    let before: u128 = (b.whole - b.start) as u128;
    let minus = b.exponent > b.fraction && t[b.exponent - 1] == '-';
    let limit: u128 = LARGEST as u128;
    let n: u128 = d.len() as u128;
    let ghost at = point(t@);
    // The digits before the point, and where the fraction begins.
    let mut whole: u128 = 0;
    let mut from: usize = 0;
    let mut small = false;
    if minus && e > before {
        small = true;
    } else {
        let p: u128 = if minus {
            before - e
        } else {
            before + e
        };
        if p <= n {
            from = p as usize;
            whole = capped_value(&d, 0, from, limit);
            assert(d@.subrange(0, from as int) =~= d@.take(at));
        } else {
            from = d.len();
            let v: u128 = capped_value(&d, 0, d.len(), limit);
            assert(d@.subrange(0, d@.len() as int) =~= d@);
            whole = capped_shift(v, p - n, limit);
            proof {
                lemma_far(d@, (p - n) as nat, at, v as nat);
            }
        }
    }
    if whole >= limit {
        return LARGEST;
    }
    if small {
        proof {
            let f = fraction_part(d@, at);
            assert forall|k: int| 0 <= k < f.len() implies is_digit(#[trigger] f[k]) by {
                if k >= -at {
                    assert(f[k] == d@[k + at]);
                }
            }
            lemma_small(f);
        }
        return 0;
    }
    let mut f: Vec<char> = Vec::new();
    let mut i: usize = from;
    assert(d@.skip(from as int).take(0) =~= Seq::empty());
    while i < d.len()
        invariant
            from <= i <= d@.len(),
            all_digits(d@),
            f@ == d@.skip(from as int).take(i - from),
        decreases d@.len() - i,
    {
        f.push(d[i]);
        assert(f@ =~= d@.skip(from as int).take(i + 1 - from));
        i = i + 1;
    }
    assert(f@ =~= d@.skip(from as int));
    assert(all_digits(f@));
    assert(f@ =~= fraction_part(d@, at));
    if check_rounds_up(&f, whole as u32 + 1) {
        whole as u32 + 1
    } else {
        whole as u32
    }
}

} // verus!

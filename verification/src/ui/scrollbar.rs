//! The thumb of a scrollbar. Its length is what single-precision arithmetic
//! gives for the visible share of the track; the arithmetic is done on
//! fractions of whole numbers here.
use vstd::prelude::*;
use crate::num::min_len;

verus! {

/// `n / d` rounded to a whole number, halves to the even one.
pub open spec fn half_even(n: nat, d: nat) -> nat {
    let q = n / d;
    let r = n % d;
    if 2 * r > d || (2 * r == d && q % 2 == 1) {
        q + 1
    } else {
        q
    }
}

/// The fraction next to `n / d` with 24 binary digits, where `n / d` has no more
/// than that before the point.
pub open spec fn round_small(n: nat, d: nat) -> (nat, nat)
    decreases d * 0x1000000 - n,
{
    if n == 0 || n >= d * 0x800000 {
        (half_even(n, d), 1)
    } else {
        let r = round_small(2 * n, d);
        (r.0, 2 * r.1)
    }
}

/// The fraction next to `n / d` with 24 binary digits: a single-precision number.
pub open spec fn rounded(n: nat, d: nat) -> (nat, nat)
    decreases n - d,
{
    if d > 0 && n >= d * 0x1000000 {
        let r = rounded(n, 2 * d);
        (2 * r.0, r.1)
    } else {
        round_small(n, d)
    }
}

/// The whole number next to `n` in single precision.
pub open spec fn single(n: nat) -> nat {
    if n < 0x1000000 {
        n
    } else {
        rounded(n, 1).0
    }
}

/// How long the thumb is on a track of `track` cells when `visible` of `total`
/// rows are in sight: their share of the track, but at least one cell.
pub open spec fn thumb_len(track: usize, total: usize, visible: usize) -> usize {
    let share = if total == 0 {
        0
    } else {
        let q = rounded(single(visible as nat), single(total as nat));
        let p = rounded(q.0 * single(track as nat), q.1);
        (p.0 / p.1) as int
    };
    if share < 1 {
        min_len(1, track)
    } else if share > track {
        track
    } else {
        share as usize
    }
}

/// Where the thumb begins and how long it is.
pub open spec fn thumb(track: usize, total: usize, visible: usize, scroll: usize) -> (usize, usize) {
    let len = thumb_len(track, total, visible);
    let available = track - len;
    let max_scroll = total - visible;
    let pos = if max_scroll > 0 {
        let p = scroll * available / max_scroll;
        if p > available {
            available
        } else {
            p
        }
    } else {
        0
    };
    (pos as usize, len)
}

fn half_even_of(n: u128, d: u128) -> (r: u128)
    requires
        0 < d <= 0x1_0000_0000_0000_0000_0000_0000,
        n < d * 0x1000000,
    ensures
        r == half_even(n as nat, d as nat),
        r <= 0x1000000,
        n >= d * 0x800000 ==> 2 * (r * d) >= n,
{
    let q: u128 = n / d;
    let rest: u128 = n % d;
    proof {
        let (a, b) = (n as int, d as int);
        vstd::arithmetic::div_mod::lemma_fundamental_div_mod(a, b);
        assert(a / b < 0x1000000) by (nonlinear_arith)
            requires
                0 < b,
                0 <= a < b * 0x1000000,
                a == b * (a / b) + a % b,
                0 <= a % b < b,
        ;
        assert(q * d == b * (a / b)) by (nonlinear_arith)
            requires
                q == a / b,
                d == b,
        ;
        assert((q + 1) * d == q * d + d) by (nonlinear_arith);
    }
    if 2 * rest > d || (2 * rest == d && q % 2 == 1) {
        q + 1
    } else {
        q
    }
}

fn round_small_of(n: u128, d: u128) -> (r: (u128, u128))
    requires
        0 < d <= 0x1_0000_0000_0000_0000_0000_0000,
        n < d * 0x1000000,
    ensures
        r.0 == round_small(n as nat, d as nat).0,
        r.1 == round_small(n as nat, d as nat).1,
        r.0 <= 0x1000000,
        r.1 > 0,
        n == 0 ==> r.1 == 1,
        r.1 * n <= d * 0x1000000,
        n >= d * 0x800000 ==> r.1 == 1 && 2 * (r.0 * d) >= n,
    decreases d * 0x1000000 - n,
{
    if n == 0 || n >= d * 0x800000 {
        (half_even_of(n, d), 1)
    } else {
        let r = round_small_of(2 * n, d);
        proof {
            let (a, b) = (r.1 as int, n as int);
            assert(a * (2 * b) == 2 * (a * b) && (2 * a) * b == 2 * (a * b)) by (nonlinear_arith);
            assert(a <= a * b) by (nonlinear_arith)
                requires
                    b >= 1,
                    a >= 0,
            ;
        }
        (r.0, 2 * r.1)
    }
}

fn rounded_of(n: u128, d: u128) -> (r: (u128, u128))
    requires
        0 < d <= 0x1_0000_0000_0000_0000_0000_0000,
        n < 0x1_0000_0000_0000_0000_0000_0000,
    ensures
        r.0 == rounded(n as nat, d as nat).0,
        r.1 == rounded(n as nat, d as nat).1,
        r.1 > 0,
        n < d * 0x1000000 ==> r.0 <= 0x1000000,
        n >= d * 0x1000000 ==> r.1 == 1,
        r.0 <= 0x1000000 || r.0 * d <= 2 * n,
        n == 0 ==> r.1 == 1,
        r.1 * n <= d * 0x1000000 || r.1 == 1,
        n >= d * 0x800000 ==> 2 * (r.0 * d) >= n,
    decreases n - d,
{
    if n >= d * 0x1000000 {
        let r = rounded_of(n, 2 * d);
        proof {
            let (a, b) = (r.0 as int, d as int);
            assert(a * (2 * b) == 2 * (a * b) && (2 * a) * b == 2 * (a * b)) by (nonlinear_arith);
            assert(a <= a * b) by (nonlinear_arith)
                requires
                    b >= 1,
                    a >= 0,
            ;
            if r.0 <= 0x1000000 {
                assert((2 * a) * b <= 0x2000000 * b) by (nonlinear_arith)
                    requires
                        0 <= a <= 0x1000000,
                        b >= 1,
                ;
            }
        }
        (2 * r.0, r.1)
    } else {
        round_small_of(n, d)
    }
}

fn single_of(n: usize) -> (r: u128)
    ensures
        r == single(n as nat),
        r <= 2 * n,
        n <= 2 * r,
{
    if n < 0x1000000 {
        n as u128
    } else {
        rounded_of(n as u128, 1).0
    }
}

fn thumb_length(track: usize, total: usize, visible: usize) -> (len: usize)
    requires
        visible <= total,
    ensures
        len == thumb_len(track, total, visible),
{
    let share: u128 = if total == 0 {
        0
    } else {
        let v: u128 = single_of(visible);
        let t: u128 = single_of(total);
        let q = rounded_of(v, t);
        let w: u128 = single_of(track);
        proof {
            let (a, b, c) = (q.0 as int, w as int, q.1 as int);
            assert(a * b < 0x1_0000_0000_0000_0000_0000_0000) by (nonlinear_arith)
                requires
                    0 <= a <= 0x1000000,
                    0 <= b <= 0x2_0000_0000_0000_0000,
            ;
            if v > 0 && q.1 * v <= t * 0x1000000 {
                assert(c <= c * v) by (nonlinear_arith)
                    requires
                        v >= 1,
                        c >= 0,
                ;
            }
        }
        let p = rounded_of(q.0 * w, q.1);
        p.0 / p.1
    };
    if share < 1 {
        min_len(1, track)
    } else if share > track as u128 {
        track
    } else {
        share as usize
    }
}

/// Where the thumb of a scrollbar begins and how long it is.
pub fn scrollbar_thumb(track_len: usize, total: usize, visible: usize, scroll: usize) -> (r: (
    usize,
    usize,
))
    requires
        visible <= total,
    ensures
        r == thumb(track_len, total, visible, scroll),
        r.0 + r.1 <= track_len,
        track_len > 0 ==> r.1 > 0,
{
    let len: usize = thumb_length(track_len, total, visible);
    let available: usize = track_len - len;
    let max_scroll: usize = total - visible;
    let pos: usize = if max_scroll > 0 {
        let (a, b): (u128, u128) = (scroll as u128, available as u128);
        assert(0 <= a * b <= u128::MAX) by (nonlinear_arith)
            requires
                0 <= a <= 0xffff_ffff_ffff_ffff,
                0 <= b <= 0xffff_ffff_ffff_ffff,
        ;
        let p: u128 = a * b / max_scroll as u128;
        if p > b {
            available
        } else {
            p as usize
        }
    } else {
        0
    };
    (pos, len)
}

} // verus!

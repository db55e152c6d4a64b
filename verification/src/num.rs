//! Small arithmetic used throughout: each function means the same in
//! executable code and in specifications.
use vstd::prelude::*;

verus! {

/// The smaller of two screen coordinates.
#[verifier::allow_in_spec]
pub fn min16(a: u16, b: u16) -> u16
    returns
        (if a <= b {
            a
        } else {
            b
        }),
{
    if a <= b {
        a
    } else {
        b
    }
}

/// The larger of two screen coordinates.
#[verifier::allow_in_spec]
pub fn max16(a: u16, b: u16) -> u16
    returns
        (if a <= b {
            b
        } else {
            a
        }),
{
    if a <= b {
        b
    } else {
        a
    }
}

/// The smaller of two lengths.
#[verifier::allow_in_spec]
pub fn min_len(a: usize, b: usize) -> usize
    returns
        (if a <= b {
            a
        } else {
            b
        }),
{
    if a <= b {
        a
    } else {
        b
    }
}

/// The larger of two lengths.
#[verifier::allow_in_spec]
pub fn max_len(a: usize, b: usize) -> usize
    returns
        (if a <= b {
            b
        } else {
            a
        }),
{
    if a <= b {
        b
    } else {
        a
    }
}

/// The low sixteen bits of `v`.
#[verifier::allow_in_spec]
pub fn low16(v: u32) -> u16
    returns
        (v % 0x10000) as u16,
{
    (v % 0x10000) as u16
}

/// The product of two sixteen bit numbers fits thirty-two bits, with room for
/// two more sixteen bit numbers.
pub(crate) proof fn lemma_area(a: int, b: int)
    requires
        0 <= a <= 0xffff,
        0 <= b <= 0xffff,
    ensures
        0 <= a * b <= 0xfffe0001,
{
    assert(0 <= a * b <= 0xfffe0001) by (nonlinear_arith)
        requires
            0 <= a <= 0xffff,
            0 <= b <= 0xffff,
    ;
}

/// Cell `(r, c)` of a grid `cols` wide, found again from its index.
pub(crate) proof fn lemma_row_col(r: int, c: int, cols: int)
    requires
        0 <= r,
        0 <= c < cols,
    ensures
        (r * cols + c) / cols == r,
        (r * cols + c) % cols == c,
{
    vstd::arithmetic::div_mod::lemma_fundamental_div_mod_converse(r * cols + c, cols, r, c);
}

/// Rows of a grid follow one another without overlap.
pub(crate) proof fn lemma_row_bound(r: int, rows: int, cols: int)
    requires
        0 <= r < rows,
        0 <= cols,
    ensures
        0 <= r * cols,
        r * cols + cols == (r + 1) * cols,
        (r + 1) * cols <= rows * cols,
{
    assert(0 <= r * cols && r * cols + cols == (r + 1) * cols && (r + 1) * cols <= rows * cols)
        by (nonlinear_arith)
        requires
            0 <= r < rows,
            0 <= cols,
    ;
}

} // verus!

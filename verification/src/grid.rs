//! Row-major grids as flat sequences, and toroidal index arithmetic.

use vstd::prelude::*;
use vstd::arithmetic::div_mod::{
    lemma_fundamental_div_mod, lemma_fundamental_div_mod_converse,
};
use vstd::arithmetic::mul::lemma_mul_inequality;

verus! {

/// The cell stored at column `x`, row `y` of a row-major grid of width `w`.
pub open spec fn cell(b: Seq<u8>, w: int, x: int, y: int) -> u8 {
    b[x + y * w]
}

/// The row above `y` (or below `x`'s column) on a torus of size `n`:
/// decrement with wraparound.
pub open spec fn wrap_dec(v: int, n: int) -> int {
    if v == 0 {
        n - 1
    } else {
        v - 1
    }
}

/// Increment with wraparound on a torus of size `n`.
pub open spec fn wrap_inc(v: int, n: int) -> int {
    if v == n - 1 {
        0
    } else {
        v + 1
    }
}

/// The `w × h` grid whose cell at `(x, y)` is `f(x, y)`, stored row-major.
pub open spec fn grid(w: int, h: int, f: spec_fn(int, int) -> u8) -> Seq<u8> {
    Seq::new((w * h) as nat, |i: int| f(i % w, i / w))
}

/// A flat index `x + y * w` decomposes back into its coordinates.
pub proof fn lemma_index_decomp(x: int, y: int, w: int)
    requires
        0 <= x < w,
        0 <= y,
    ensures
        (x + y * w) % w == x,
        (x + y * w) / w == y,
{
    lemma_fundamental_div_mod_converse(x + y * w, w, y, x);
}

/// In-bounds coordinates give an in-bounds flat index.
pub proof fn lemma_index_bound(x: int, y: int, w: int, h: int)
    requires
        0 <= x < w,
        0 <= y < h,
    ensures
        0 <= x + y * w < w * h,
{
    lemma_mul_inequality(y, h - 1, w);
    assert((h - 1) * w == h * w - w) by (nonlinear_arith);
}

/// A flat index below `w * h` names a cell with in-bounds coordinates.
pub proof fn lemma_flat_coords(i: int, w: int, h: int)
    requires
        1 <= w,
        0 <= i < w * h,
    ensures
        0 <= i % w < w,
        0 <= i / w < h,
        i == (i % w) + (i / w) * w,
{
    lemma_fundamental_div_mod(i, w);
    assert(w * (i / w) == (i / w) * w) by (nonlinear_arith);
    assert(h * w == w * h) by (nonlinear_arith);
    assert(i / w < h) by {
        if i / w >= h {
            lemma_mul_inequality(h, i / w, w);
        }
    }
}

} // verus!

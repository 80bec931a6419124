//! The library's laws: determinism, seed symmetry, the 2×2 still life,
//! bounded termination of the generation sequence, and upscale fidelity.

use vstd::prelude::*;
use vstd::arithmetic::div_mod::lemma_fundamental_div_mod_converse;
use crate::conway::{
    board_empty, frames_spec, gen_seq, in_seed_col, in_seed_row, lemma_geometry_bounds,
    lemma_mirror_in_region, seed_board, step_board, upscale_board, upscale_seq,
};
use crate::grid::{cell, grid, lemma_flat_coords, lemma_index_bound, lemma_index_decomp, wrap_dec,
    wrap_inc};

verus! {

/// Determinism: for one text and one factor there is exactly one frame
/// sequence, so any two runs of the whole pipeline return equal frames.
pub proof fn lemma_determinism(text: Seq<char>, factor: int, a: Seq<Seq<u8>>, b: Seq<Seq<u8>>)
    requires
        a == frames_spec(text, factor),
        b == frames_spec(text, factor),
    ensures
        a == b,
{
}

/// Seed symmetry: every seeded board mirrors left-right, cell `(x, y)` always
/// equals cell `(width - 1 - x, y)`.
pub proof fn lemma_seed_symmetry(digest: Seq<u8>, w: int, h: int, x: int, y: int)
    requires
        1 <= w,
        1 <= h,
        0 <= x < w,
        0 <= y < h,
    ensures
        cell(seed_board(digest, w, h), w, x, y) == cell(seed_board(digest, w, h), w, w - 1 - x, y),
{
    lemma_geometry_bounds(w, h);
    lemma_index_bound(x, y, w, h);
    lemma_index_decomp(x, y, w);
    lemma_index_bound(w - 1 - x, y, w, h);
    lemma_index_decomp(w - 1 - x, y, w);
    if in_seed_row(h, y) && in_seed_col(w, x) && in_seed_col(w, w - 1 - x) {
        lemma_mirror_in_region(w, x, w - 1 - x);
    }
}

/// A board whose only live cells form one 2×2 block with top-left corner
/// `(a, b)`.
pub open spec fn block_board(w: int, h: int, a: int, b: int) -> Seq<u8> {
    grid(
        w,
        h,
        |x: int, y: int|
            if (x == a || x == a + 1) && (y == b || y == b + 1) {
                1u8
            } else {
                0u8
            },
    )
}

/// What a block board holds at in-bounds coordinates.
proof fn lemma_block_cell(w: int, h: int, a: int, b: int, c: int, r: int)
    requires
        1 <= w,
        0 <= c < w,
        0 <= r < h,
    ensures
        cell(block_board(w, h, a, b), w, c, r) == (
        if (c == a || c == a + 1) && (r == b || r == b + 1) {
            1u8
        } else {
            0u8
        }),
{
    lemma_index_bound(c, r, w, h);
    lemma_index_decomp(c, r, w);
}

/// Rule correctness on a still life: a single 2×2 block of live cells is a
/// fixed point of the toroidal step whenever the board is at least 3×3.
#[verifier::rlimit(100)]
pub proof fn lemma_block_still_life(w: int, h: int, a: int, b: int)
    requires
        3 <= w,
        3 <= h,
        0 <= a,
        a + 1 < w,
        0 <= b,
        b + 1 < h,
    ensures
        step_board(block_board(w, h, a, b), w, h) == block_board(w, h, a, b),
{
    let blk = block_board(w, h, a, b);
    assert forall|i: int| 0 <= i < w * h implies step_board(blk, w, h)[i] == blk[i] by {
        lemma_flat_coords(i, w, h);
        let x = i % w;
        let y = i / w;
        let t = wrap_dec(y, h);
        let bo = wrap_inc(y, h);
        let l = wrap_dec(x, w);
        let r = wrap_inc(x, w);
        lemma_block_cell(w, h, a, b, l, t);
        lemma_block_cell(w, h, a, b, x, t);
        lemma_block_cell(w, h, a, b, r, t);
        lemma_block_cell(w, h, a, b, l, y);
        lemma_block_cell(w, h, a, b, r, y);
        lemma_block_cell(w, h, a, b, l, bo);
        lemma_block_cell(w, h, a, b, x, bo);
        lemma_block_cell(w, h, a, b, r, bo);
        lemma_block_cell(w, h, a, b, x, y);
    };
    assert(step_board(blk, w, h) =~= blk);
}

/// Bounded termination: a generation sequence starts at its seed, never holds
/// more than `max + 1` boards, no board before the last is all dead (so an
/// all-dead board ends the run), each later board is the step of the one
/// before it, and a run that stopped before `max` steps ended on an all-dead
/// board.
pub proof fn lemma_gen_seq_props(b: Seq<u8>, w: int, h: int, max: int)
    requires
        0 <= max,
        1 <= w,
        1 <= h,
        b.len() == w * h,
    ensures
        1 <= gen_seq(b, w, h, max).len() <= max + 1,
        gen_seq(b, w, h, max)[0] == b,
        forall|k: int|
            0 <= k < gen_seq(b, w, h, max).len() - 1 ==> !board_empty(gen_seq(b, w, h, max)[k]),
        forall|k: int|
            1 <= k < gen_seq(b, w, h, max).len() ==> #[trigger] gen_seq(b, w, h, max)[k]
                == step_board(gen_seq(b, w, h, max)[k - 1], w, h),
        gen_seq(b, w, h, max).len() <= max ==> board_empty(gen_seq(b, w, h, max).last()),
        forall|k: int| 0 <= k < gen_seq(b, w, h, max).len() ==> gen_seq(b, w, h, max)[k].len() == w
            * h,
    decreases max,
{
    if max <= 0 || board_empty(b) {
    } else {
        lemma_gen_seq_props(step_board(b, w, h), w, h, max - 1);
    }
}

/// Upscale fidelity: every pixel of an `f × f` destination block equals its
/// source cell.
pub proof fn lemma_upscale_fidelity(
    bd: Seq<u8>,
    w: int,
    h: int,
    f: int,
    x: int,
    y: int,
    dx: int,
    dy: int,
)
    requires
        bd.len() == w * h,
        1 <= w,
        1 <= h,
        1 <= f,
        0 <= x < w,
        0 <= y < h,
        0 <= dx < f,
        0 <= dy < f,
    ensures
        cell(upscale_board(bd, w, h, f), w * f, x * f + dx, y * f + dy) == cell(bd, w, x, y),
{
    let gx = x * f + dx;
    let gy = y * f + dy;
    assert(0 <= gx < w * f && 0 <= gy < h * f) by (nonlinear_arith)
        requires
            1 <= f,
            0 <= x < w,
            0 <= y < h,
            0 <= dx < f,
            0 <= dy < f,
            gx == x * f + dx,
            gy == y * f + dy,
    ;
    lemma_index_bound(gx, gy, w * f, h * f);
    lemma_index_decomp(gx, gy, w * f);
    lemma_fundamental_div_mod_converse(gx, f, x, dx);
    lemma_fundamental_div_mod_converse(gy, f, y, dy);
}

/// Upscaling by factor 1 is the identity on one board.
pub proof fn lemma_upscale_identity(bd: Seq<u8>, w: int, h: int)
    requires
        bd.len() == w * h,
        1 <= w,
        1 <= h,
    ensures
        upscale_board(bd, w, h, 1) == bd,
{
    assert forall|i: int| 0 <= i < w * h implies upscale_board(bd, w, h, 1)[i] == bd[i] by {
        lemma_flat_coords(i, w, h);
    };
    assert(upscale_board(bd, w, h, 1) =~= bd);
}

/// Upscaling by factor 1 is the identity on a whole board sequence.
pub proof fn lemma_upscale_seq_identity(boards: Seq<Seq<u8>>, w: int, h: int)
    requires
        1 <= w,
        1 <= h,
        forall|k: int| 0 <= k < boards.len() ==> (#[trigger] boards[k]).len() == w * h,
    ensures
        upscale_seq(boards, w, h, 1) == boards,
{
    assert forall|k: int| 0 <= k < boards.len() implies upscale_seq(boards, w, h, 1)[k]
        == boards[k] by {
        lemma_upscale_identity(boards[k], w, h);
    };
    assert(upscale_seq(boards, w, h, 1) =~= boards);
}

} // verus!

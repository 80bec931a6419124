//! The simulation engine: hash-seeded symmetric boards, the toroidal Game of
//! Life step, the bounded generation sequence, and block-replication upscaling.

use vstd::prelude::*;
use vstd::arithmetic::div_mod::{lemma_div_is_ordered, lemma_fundamental_div_mod};
use crate::grid::{
    cell, grid, lemma_flat_coords, lemma_index_bound, lemma_index_decomp, wrap_dec, wrap_inc,
};
use crate::hash::{sha3_256, sha3_256_of};

verus! {

/// The failures the engine can report: grid dimensions that need more hash
/// bytes than one digest holds, or a zero upscale factor.
#[derive(Clone, Copy, Debug, PartialEq, Eq, Structural)]
pub enum ConwayError {
    ConfigTooLarge,
    ZeroFactor,
}

/// Width, in cells, of the rectangular seed sub-region of a board of width `w`.
pub open spec fn spec_width_depth(w: int) -> int {
    (w - 1) / 4 + 1
}

/// Height, in cells, of the seed sub-region of a board of height `h`.
pub open spec fn spec_height_depth(h: int) -> int {
    h - 2 * ((h + 1) / 4)
}

/// Horizontal offset of the seed sub-region from the board's left edge.
pub open spec fn spec_width_gap(w: int) -> int {
    (w + 1) / 4
}

/// Vertical offset of the seed sub-region from the board's top edge.
pub open spec fn spec_height_gap(h: int) -> int {
    (h + 1) / 4
}

/// Number of digest bits a `w × h` board consumes while seeding.
pub open spec fn spec_bits_needed(w: int, h: int) -> int {
    spec_width_depth(w) * spec_height_depth(h)
}

/// Number of digest bytes a `w × h` board consumes: `ceil(bits / 8)`.
pub open spec fn spec_bytes_needed(w: int, h: int) -> int {
    (spec_bits_needed(w, h) - 1) / 8 + 1
}

/// The derived geometry always fits inside the board: the seed sub-region is
/// non-empty and lies between the gaps and the opposite edges.
pub proof fn lemma_geometry_bounds(w: int, h: int)
    requires
        1 <= w,
        1 <= h,
    ensures
        1 <= spec_width_depth(w) <= w,
        1 <= spec_height_depth(h) <= h,
        0 <= spec_width_gap(w),
        0 <= spec_height_gap(h),
        spec_width_gap(w) + spec_width_depth(w) <= w,
        spec_height_gap(h) + spec_height_depth(h) <= h,
        1 <= spec_bits_needed(w, h) <= w * h,
        1 <= spec_bytes_needed(w, h),
        2 * spec_height_gap(h) <= h,
{
    lemma_fundamental_div_mod(w + 1, 4);
    lemma_fundamental_div_mod(w - 1, 4);
    lemma_fundamental_div_mod(h + 1, 4);
    assert(1 <= spec_width_depth(w) * spec_height_depth(h) <= w * h) by (nonlinear_arith)
        requires
            1 <= spec_width_depth(w) <= w,
            1 <= spec_height_depth(h) <= h,
    ;
    lemma_fundamental_div_mod(spec_bits_needed(w, h) - 1, 8);
}

/// Two mirrored columns cannot both lie in the seed sub-region unless they are
/// the same column: the sub-region never overlaps its own mirror image.
pub proof fn lemma_mirror_in_region(w: int, x1: int, x2: int)
    requires
        1 <= w,
        spec_width_gap(w) <= x1 < spec_width_gap(w) + spec_width_depth(w),
        spec_width_gap(w) <= x2 < spec_width_gap(w) + spec_width_depth(w),
        x1 + x2 == w - 1,
    ensures
        x1 == x2,
{
    lemma_fundamental_div_mod(w + 1, 4);
    lemma_fundamental_div_mod(w - 1, 4);
}

/// Bit `pos` of a digest, counting least-significant bit first inside each
/// byte, in ascending byte order.
pub open spec fn digest_bit(digest: Seq<u8>, pos: int) -> u8 {
    (digest[pos / 8] >> ((pos % 8) as u8)) & 1
}

/// Whether column `x` lies inside the seed sub-region of a board of width `w`.
pub open spec fn in_seed_col(w: int, x: int) -> bool {
    spec_width_gap(w) <= x < spec_width_gap(w) + spec_width_depth(w)
}

/// Whether row `y` lies inside the seed sub-region of a board of height `h`.
pub open spec fn in_seed_row(h: int, y: int) -> bool {
    spec_height_gap(h) <= y < spec_height_gap(h) + spec_height_depth(h)
}

/// The digest bit position that seeds sub-region cell `(x, y)`.
pub open spec fn seed_pos(w: int, h: int, x: int, y: int) -> int {
    (x - spec_width_gap(w)) + (y - spec_height_gap(h)) * spec_width_depth(w)
}

/// The seeded value of cell `(x, y)`: its own digest bit inside the seed
/// sub-region, the mirrored column's bit inside the mirror image of the
/// sub-region, dead everywhere else.
pub open spec fn seed_cell(digest: Seq<u8>, w: int, h: int, x: int, y: int) -> u8 {
    if in_seed_row(h, y) && in_seed_col(w, x) {
        digest_bit(digest, seed_pos(w, h, x, y))
    } else if in_seed_row(h, y) && in_seed_col(w, w - 1 - x) {
        digest_bit(digest, seed_pos(w, h, w - 1 - x, y))
    } else {
        0
    }
}

/// The initial board seeded from a digest: every digest bit is placed at its
/// sub-region cell and mirrored left-right, giving a symmetric pattern.
pub open spec fn seed_board(digest: Seq<u8>, w: int, h: int) -> Seq<u8> {
    grid(w, h, |x: int, y: int| seed_cell(digest, w, h, x, y))
}

/// 1 if cell `(x, y)` is alive, else 0.
pub open spec fn alive(b: Seq<u8>, w: int, x: int, y: int) -> int {
    if cell(b, w, x, y) == 1 {
        1
    } else {
        0
    }
}

/// How many of the 8 toroidal neighbours of `(x, y)` are alive.
pub open spec fn neighbour_count(b: Seq<u8>, w: int, h: int, x: int, y: int) -> int {
    let t = wrap_dec(y, h);
    let bo = wrap_inc(y, h);
    let l = wrap_dec(x, w);
    let r = wrap_inc(x, w);
    alive(b, w, l, t) + alive(b, w, x, t) + alive(b, w, r, t) + alive(b, w, l, y) + alive(
        b,
        w,
        r,
        y,
    ) + alive(b, w, l, bo) + alive(b, w, x, bo) + alive(b, w, r, bo)
}

/// The standard rule: a cell lives on when alive with exactly 2 neighbours,
/// and is alive next generation whenever it has exactly 3 neighbours.
pub open spec fn next_cell(b: Seq<u8>, w: int, h: int, x: int, y: int) -> u8 {
    if (cell(b, w, x, y) == 1 && neighbour_count(b, w, h, x, y) == 2) || neighbour_count(
        b,
        w,
        h,
        x,
        y,
    ) == 3 {
        1
    } else {
        0
    }
}

/// One generation of the toroidal Game of Life, as a fresh board.
pub open spec fn step_board(b: Seq<u8>, w: int, h: int) -> Seq<u8> {
    grid(w, h, |x: int, y: int| next_cell(b, w, h, x, y))
}

/// A board with no live cell. It is an absorbing fixed point of the rule.
pub open spec fn board_empty(b: Seq<u8>) -> bool {
    forall|i: int| 0 <= i < b.len() ==> b[i] != 1
}

/// The generation sequence starting at `b`: each board is followed by its
/// successor, up to `max` steps, stopping early once a board is all dead.
pub open spec fn gen_seq(b: Seq<u8>, w: int, h: int, max: int) -> Seq<Seq<u8>>
    decreases max,
{
    if max <= 0 || board_empty(b) {
        seq![b]
    } else {
        seq![b] + gen_seq(step_board(b, w, h), w, h, max - 1)
    }
}

/// The views of a vector of boards, as a sequence of cell sequences.
pub open spec fn boards_view(v: Seq<Vec<u8>>) -> Seq<Seq<u8>> {
    Seq::new(v.len(), |k: int| v[k]@)
}

/// A board upscaled by `f`: each source cell fills an `f × f` block of pixels.
pub open spec fn upscale_board(b: Seq<u8>, w: int, h: int, f: int) -> Seq<u8> {
    grid(w * f, h * f, |x: int, y: int| cell(b, w, x / f, y / f))
}

/// Every board of a sequence upscaled by the same factor.
pub open spec fn upscale_seq(boards: Seq<Seq<u8>>, w: int, h: int, f: int) -> Seq<Seq<u8>> {
    Seq::new(boards.len(), |k: int| upscale_board(boards[k], w, h, f))
}

/// The full pipeline on the reference 16×16 board with 32 generations: the
/// frames that `from_string` produces for a text and an upscale factor.
pub open spec fn frames_spec(text: Seq<char>, factor: int) -> Seq<Seq<u8>> {
    upscale_seq(gen_seq(seed_board(sha3_256_of(text), 16, 16), 16, 16, 32), 16, 16, factor)
}

/// The simulation state: a fixed toroidal geometry derived once from the board
/// dimensions, and the boards generated so far.
#[derive(Debug)]
pub struct ConwayState {
    pub width: usize,
    pub height: usize,
    pub width_depth: usize,
    pub height_depth: usize,
    pub width_gap: usize,
    pub height_gap: usize,
    pub bits_needed: usize,
    pub bytes_needed: usize,
    pub boards: Vec<Vec<u8>>,
}

impl ConwayState {
    /// The geometry fields are exactly the functions of `(width, height)` that
    /// the design fixes, the dimensions are positive, a board fits in memory,
    /// and one digest supplies every needed byte.
    pub open spec fn wf_config(&self) -> bool {
        &&& 1 <= self.width
        &&& 1 <= self.height
        &&& self.width < usize::MAX
        &&& self.height < usize::MAX
        &&& self.width * self.height <= usize::MAX
        &&& self.width_depth == spec_width_depth(self.width as int)
        &&& self.height_depth == spec_height_depth(self.height as int)
        &&& self.width_gap == spec_width_gap(self.width as int)
        &&& self.height_gap == spec_height_gap(self.height as int)
        &&& self.bits_needed == spec_bits_needed(self.width as int, self.height as int)
        &&& self.bytes_needed == spec_bytes_needed(self.width as int, self.height as int)
        &&& self.bytes_needed <= 32
    }

    /// Every stored board has exactly one cell per grid position.
    pub open spec fn boards_wf(&self) -> bool {
        forall|k: int|
            0 <= k < self.boards@.len() ==> (#[trigger] self.boards@[k])@.len() == self.width
                * self.height
    }

    /// Derive the seed geometry for a `width × height` board, with no boards
    /// generated yet. Rejected exactly when the geometry would consume more
    /// bytes than the 32 a digest holds.
    pub fn new(width: usize, height: usize) -> (r: Result<ConwayState, ConwayError>)
        requires
            1 <= width,
            1 <= height,
            width < usize::MAX,
            height < usize::MAX,
            width * height <= usize::MAX,
        ensures
            match r {
                Ok(s) => {
                    &&& spec_bytes_needed(width as int, height as int) <= 32
                    &&& s.wf_config()
                    &&& s.width == width
                    &&& s.height == height
                    &&& s.boards@.len() == 0
                },
                Err(e) => {
                    &&& e == ConwayError::ConfigTooLarge
                    &&& spec_bytes_needed(width as int, height as int) > 32
                },
            },
    {
        proof {
            lemma_geometry_bounds(width as int, height as int);
        }
        let width_depth: usize = (width - 1) / 4 + 1;
        let height_gap: usize = (height + 1) / 4;
        let height_depth: usize = height - 2 * height_gap;
        let width_gap: usize = (width + 1) / 4;
        let bits_needed: usize = width_depth * height_depth;
        let bytes_needed: usize = (bits_needed - 1) / 8 + 1;
        if bytes_needed > 32 {
            Err(ConwayError::ConfigTooLarge)
        } else {
            Ok(
                ConwayState {
                    width,
                    height,
                    width_depth,
                    height_depth,
                    width_gap,
                    height_gap,
                    bits_needed,
                    bytes_needed,
                    boards: Vec::new(),
                },
            )
        }
    }

    /// Seed a fresh board from the SHA3-256 digest of `text`: the needed
    /// digest bits fill the seed sub-region, least-significant bit first, and
    /// every bit is mirrored left-right around the board's centre.
    #[verifier::loop_isolation(false)]
    pub fn board_initial(&self, text: &str) -> (r: Vec<u8>)
        requires
            self.wf_config(),
        ensures
            r@ == seed_board(sha3_256_of(text@), self.width as int, self.height as int),
            r@.len() == self.width * self.height,
    {
        proof {
            lemma_geometry_bounds(self.width as int, self.height as int);
        }
        let w: usize = self.width;
        let h: usize = self.height;
        let digest: Vec<u8> = sha3_256(text);
        let ghost d = digest@;
        let mut board: Vec<u8> = Vec::new();
        let mut y: usize = 0;
        while y < h
            invariant
                y <= h,
                board@.len() == y * w,
                forall|i: int|
                    0 <= i < board@.len() ==> board@[i] == seed_cell(
                        d,
                        w as int,
                        h as int,
                        i % (w as int),
                        i / (w as int),
                    ),
            decreases h - y,
        {
            let mut x: usize = 0;
            while x < w
                invariant
                    x <= w,
                    y < h,
                    board@.len() == y * w + x,
                    forall|i: int|
                        0 <= i < board@.len() ==> board@[i] == seed_cell(
                            d,
                            w as int,
                            h as int,
                            i % (w as int),
                            i / (w as int),
                        ),
                decreases w - x,
            {
                let val: u8 = if self.height_gap <= y && y < self.height_gap
                    + self.height_depth {
                    if self.width_gap <= x && x < self.width_gap + self.width_depth {
                        self.digest_bit_at(&digest, x - self.width_gap, y - self.height_gap)
                    } else {
                        let mx: usize = w - 1 - x;
                        if self.width_gap <= mx && mx < self.width_gap + self.width_depth {
                            self.digest_bit_at(&digest, mx - self.width_gap, y - self.height_gap)
                        } else {
                            0
                        }
                    }
                } else {
                    0
                };
                proof {
                    lemma_index_decomp(x as int, y as int, w as int);
                }
                board.push(val);
                x = x + 1;
            }
            proof {
                assert((y + 1) * w == y * w + w) by (nonlinear_arith);
            }
            y = y + 1;
        }
        proof {
            assert(h * w == w * h) by (nonlinear_arith);
            assert(board@ =~= seed_board(d, w as int, h as int));
        }
        board
    }

    /// Read the digest bit that seeds sub-region cell `(sx, sy)`.
    fn digest_bit_at(&self, digest: &Vec<u8>, sx: usize, sy: usize) -> (r: u8)
        requires
            self.wf_config(),
            digest@.len() == 32,
            sx < self.width_depth,
            sy < self.height_depth,
        ensures
            r == digest_bit(
                digest@,
                sx + sy * spec_width_depth(self.width as int),
            ),
    {
        proof {
            lemma_geometry_bounds(self.width as int, self.height as int);
            lemma_index_bound(
                sx as int,
                sy as int,
                self.width_depth as int,
                self.height_depth as int,
            );
            lemma_div_is_ordered(
                (sx + sy * self.width_depth) as int,
                self.bits_needed - 1,
                8,
            );
        }
        let pos: usize = sx + sy * self.width_depth;
        let byte: u8 = digest[pos / 8];
        (byte >> ((pos % 8) as u8)) & 1
    }

    /// The next value of cell `(x, y)` under the always-toroidal rule: count
    /// the 8 wraparound neighbours, then live on with 2 when already alive, or
    /// be alive with exactly 3.
    #[verifier::rlimit(50)]
    pub fn board_square_next(&self, board: &Vec<u8>, x: usize, y: usize) -> (r: u8)
        requires
            self.wf_config(),
            board@.len() == self.width * self.height,
            x < self.width,
            y < self.height,
        ensures
            r == next_cell(board@, self.width as int, self.height as int, x as int, y as int),
    {
        let w: usize = self.width;
        let h: usize = self.height;
        let top: usize = if y == 0 { h - 1 } else { y - 1 };
        let bottom: usize = if y == h - 1 { 0 } else { y + 1 };
        let left: usize = if x == 0 { w - 1 } else { x - 1 };
        let right: usize = if x == w - 1 { 0 } else { x + 1 };
        proof {
            lemma_index_bound(left as int, top as int, w as int, h as int);
            lemma_index_bound(x as int, top as int, w as int, h as int);
            lemma_index_bound(right as int, top as int, w as int, h as int);
            lemma_index_bound(left as int, y as int, w as int, h as int);
            lemma_index_bound(right as int, y as int, w as int, h as int);
            lemma_index_bound(left as int, bottom as int, w as int, h as int);
            lemma_index_bound(x as int, bottom as int, w as int, h as int);
            lemma_index_bound(right as int, bottom as int, w as int, h as int);
            lemma_index_bound(x as int, y as int, w as int, h as int);
        }
        let mut neighbours: u8 = 0;
        if board[left + top * w] == 1 {
            neighbours = neighbours + 1;
        }
        if board[x + top * w] == 1 {
            neighbours = neighbours + 1;
        }
        if board[right + top * w] == 1 {
            neighbours = neighbours + 1;
        }
        if board[left + y * w] == 1 {
            neighbours = neighbours + 1;
        }
        if board[right + y * w] == 1 {
            neighbours = neighbours + 1;
        }
        if board[left + bottom * w] == 1 {
            neighbours = neighbours + 1;
        }
        if board[x + bottom * w] == 1 {
            neighbours = neighbours + 1;
        }
        if board[right + bottom * w] == 1 {
            neighbours = neighbours + 1;
        }
        let alive_now: bool = board[x + y * w] == 1;
        if (alive_now && neighbours == 2) || neighbours == 3 {
            1
        } else {
            0
        }
    }

    /// One generation: the toroidal successor of `board`, as a fresh board.
    #[verifier::loop_isolation(false)]
    pub fn board_next(&self, board: &Vec<u8>) -> (r: Vec<u8>)
        requires
            self.wf_config(),
            board@.len() == self.width * self.height,
        ensures
            r@ == step_board(board@, self.width as int, self.height as int),
            r@.len() == self.width * self.height,
    {
        let w: usize = self.width;
        let h: usize = self.height;
        let mut next: Vec<u8> = Vec::new();
        let mut y: usize = 0;
        while y < h
            invariant
                y <= h,
                next@.len() == y * w,
                forall|i: int|
                    0 <= i < next@.len() ==> next@[i] == next_cell(
                        board@,
                        w as int,
                        h as int,
                        i % (w as int),
                        i / (w as int),
                    ),
            decreases h - y,
        {
            let mut x: usize = 0;
            while x < w
                invariant
                    x <= w,
                    y < h,
                    next@.len() == y * w + x,
                    forall|i: int|
                        0 <= i < next@.len() ==> next@[i] == next_cell(
                            board@,
                            w as int,
                            h as int,
                            i % (w as int),
                            i / (w as int),
                        ),
                decreases w - x,
            {
                let v: u8 = self.board_square_next(board, x, y);
                proof {
                    lemma_index_decomp(x as int, y as int, w as int);
                }
                next.push(v);
                x = x + 1;
            }
            proof {
                assert((y + 1) * w == y * w + w) by (nonlinear_arith);
            }
            y = y + 1;
        }
        proof {
            assert(h * w == w * h) by (nonlinear_arith);
            assert(next@ =~= step_board(board@, w as int, h as int));
        }
        next
    }

    /// Whether no cell of `board` is alive.
    pub fn is_board_empty(&self, board: &Vec<u8>) -> (r: bool)
        ensures
            r == board_empty(board@),
    {
        let mut i: usize = 0;
        while i < board.len()
            invariant
                i <= board@.len(),
                forall|j: int| 0 <= j < i ==> board@[j] != 1,
            decreases board@.len() - i,
        {
            if board[i] == 1 {
                return false;
            }
            i = i + 1;
        }
        true
    }

    /// Run the simulation from the board seeded by `text`: the seed board
    /// followed by successive generations, up to `max` steps, stopping early
    /// once a board is all dead.
    #[verifier::loop_isolation(false)]
    pub fn all_boards(&self, text: &str, max: usize) -> (r: Vec<Vec<u8>>)
        requires
            self.wf_config(),
        ensures
            boards_view(r@) == gen_seq(
                seed_board(sha3_256_of(text@), self.width as int, self.height as int),
                self.width as int,
                self.height as int,
                max as int,
            ),
            1 <= r@.len() <= max + 1,
            forall|k: int|
                0 <= k < r@.len() ==> (#[trigger] r@[k])@.len() == self.width * self.height,
    {
        let wi: usize = self.width;
        let hi: usize = self.height;
        let ghost seed = seed_board(sha3_256_of(text@), wi as int, hi as int);
        let ghost target = gen_seq(seed, wi as int, hi as int, max as int);
        let first: Vec<u8> = self.board_initial(text);
        let mut r: Vec<Vec<u8>> = Vec::new();
        let mut last_empty: bool = self.is_board_empty(&first);
        r.push(first);
        let mut i: usize = 0;
        while i < max && !last_empty
            invariant
                r@.len() == i + 1,
                i <= max,
                forall|k: int|
                    0 <= k < r@.len() ==> (#[trigger] r@[k])@.len() == self.width * self.height,
                last_empty == board_empty(r@[r@.len() - 1]@),
                target == boards_view(r@).take(i as int) + gen_seq(
                    r@[i as int]@,
                    wi as int,
                    hi as int,
                    max - i,
                ),
            decreases max - i,
        {
            let ghost last = r@[i as int]@;
            assert(gen_seq(last, wi as int, hi as int, max - i) == seq![last] + gen_seq(
                step_board(last, wi as int, hi as int),
                wi as int,
                hi as int,
                max - i - 1,
            ));
            let next: Vec<u8> = self.board_next(&r[i]);
            r.push(next);
            i = i + 1;
            last_empty = self.is_board_empty(&r[i]);
            proof {
                assert(boards_view(r@).take(i as int) =~= boards_view(
                    r@.take(i as int),
                ).take(i as int - 1) + seq![last]);
                assert(target == boards_view(r@).take(i as int) + gen_seq(
                    r@[i as int]@,
                    wi as int,
                    hi as int,
                    max - i,
                ));
            }
        }
        proof {
            assert(gen_seq(r@[i as int]@, wi as int, hi as int, max - i) == seq![
                r@[i as int]@,
            ]);
            assert(boards_view(r@) =~= boards_view(r@).take(i as int) + seq![r@[i as int]@]);
        }
        r
    }

    /// Generate and store the boards for `text`, replacing any stored run.
    /// The geometry is untouched.
    pub fn gen(&mut self, text: &str, max: usize)
        requires
            old(self).wf_config(),
        ensures
            final(self).wf_config(),
            final(self).width == old(self).width,
            final(self).height == old(self).height,
            boards_view(final(self).boards@) == gen_seq(
                seed_board(
                    sha3_256_of(text@),
                    old(self).width as int,
                    old(self).height as int,
                ),
                old(self).width as int,
                old(self).height as int,
                max as int,
            ),
            final(self).boards_wf(),
            1 <= final(self).boards@.len() <= max + 1,
    {
        let boards: Vec<Vec<u8>> = self.all_boards(text, max);
        self.boards = boards;
    }

    /// Upscale every stored board by `factor`: each cell becomes a
    /// `factor × factor` block of identical pixels. A zero factor is rejected.
    #[verifier::loop_isolation(false)]
    pub fn growed(&self, factor: usize) -> (r: Result<Vec<Vec<u8>>, ConwayError>)
        requires
            self.wf_config(),
            self.boards_wf(),
            self.width * self.height * factor * factor <= usize::MAX,
        ensures
            match r {
                Ok(frames) => {
                    &&& 1 <= factor
                    &&& boards_view(frames@) == upscale_seq(
                        boards_view(self.boards@),
                        self.width as int,
                        self.height as int,
                        factor as int,
                    )
                    &&& frames@.len() == self.boards@.len()
                },
                Err(e) => {
                    &&& e == ConwayError::ZeroFactor
                    &&& factor == 0
                },
            },
    {
        if factor == 0 {
            return Err(ConwayError::ZeroFactor);
        }
        let w: usize = self.width;
        let h: usize = self.height;
        proof {
            assert(w * factor <= w * h * factor * factor && h * factor <= w * h * factor
                * factor && (w * factor) * (h * factor) == w * h * factor * factor)
                by (nonlinear_arith)
                requires
                    1 <= w,
                    1 <= h,
                    1 <= factor,
            ;
        }
        let bw: usize = w * factor;
        let bh: usize = h * factor;
        let mut frames: Vec<Vec<u8>> = Vec::new();
        let mut k: usize = 0;
        while k < self.boards.len()
            invariant
                frames@.len() == k,
                k <= self.boards@.len(),
                forall|j: int|
                    0 <= j < k ==> (#[trigger] frames@[j])@ == upscale_board(
                        self.boards@[j]@,
                        w as int,
                        h as int,
                        factor as int,
                    ),
            decreases self.boards@.len() - k,
        {
            let src: &Vec<u8> = &self.boards[k];
            let mut out: Vec<u8> = Vec::new();
            let mut yy: usize = 0;
            while yy < bh
                invariant
                    yy <= bh,
                    out@.len() == yy * bw,
                    src@.len() == w * h,
                    forall|i: int|
                        0 <= i < out@.len() ==> out@[i] == cell(
                            src@,
                            w as int,
                            (i % (bw as int)) / (factor as int),
                            (i / (bw as int)) / (factor as int),
                        ),
                decreases bh - yy,
            {
                let mut xx: usize = 0;
                while xx < bw
                    invariant
                        xx <= bw,
                        yy < bh,
                        out@.len() == yy * bw + xx,
                        src@.len() == w * h,
                        forall|i: int|
                            0 <= i < out@.len() ==> out@[i] == cell(
                                src@,
                                w as int,
                                (i % (bw as int)) / (factor as int),
                                (i / (bw as int)) / (factor as int),
                            ),
                    decreases bw - xx,
                {
                    proof {
                        lemma_flat_coords(xx as int, factor as int, w as int);
                        lemma_flat_coords(yy as int, factor as int, h as int);
                        assert(xx < factor * w && yy < factor * h) by (nonlinear_arith)
                            requires
                                xx < w * factor,
                                yy < h * factor,
                        ;
                        lemma_index_bound(
                            (xx as int) / (factor as int),
                            (yy as int) / (factor as int),
                            w as int,
                            h as int,
                        );
                        lemma_index_decomp(xx as int, yy as int, bw as int);
                    }
                    let v: u8 = src[xx / factor + (yy / factor) * w];
                    out.push(v);
                    xx = xx + 1;
                }
                proof {
                    assert((yy + 1) * bw == yy * bw + bw) by (nonlinear_arith);
                }
                yy = yy + 1;
            }
            proof {
                assert(bh * bw == (w * factor) * (h * factor)) by (nonlinear_arith)
                    requires
                        bw == w * factor,
                        bh == h * factor,
                ;
                assert(out@ =~= upscale_board(src@, w as int, h as int, factor as int));
            }
            frames.push(out);
            k = k + 1;
        }
        proof {
            assert(boards_view(frames@) =~= upscale_seq(
                boards_view(self.boards@),
                w as int,
                h as int,
                factor as int,
            ));
        }
        Ok(frames)
    }
}

/// The whole engine on the reference configuration: seed a 16×16 board from
/// `text`, simulate up to 32 generations, and upscale every board by `factor`.
/// A zero factor is rejected; nothing else can fail.
pub fn from_string(text: &str, factor: u16) -> (r: Result<Vec<Vec<u8>>, ConwayError>)
    requires
        256 * (factor as int) * (factor as int) <= usize::MAX,
    ensures
        match r {
            Ok(frames) => {
                &&& 1 <= factor
                &&& boards_view(frames@) == frames_spec(text@, factor as int)
            },
            Err(e) => {
                &&& e == ConwayError::ZeroFactor
                &&& factor == 0
            },
        },
{
    let state_res: Result<ConwayState, ConwayError> = ConwayState::new(16, 16);
    let mut state: ConwayState = match state_res {
        Ok(s) => s,
        Err(e) => {
            proof {
                assert(spec_bytes_needed(16, 16) == 4);
                assert(false);
            }
            return Err(e);
        },
    };
    state.gen(text, 32);
    state.growed(factor as usize)
}

} // verus!
